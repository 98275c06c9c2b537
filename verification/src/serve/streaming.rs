//! Text that goes out as it is generated: whole characters, as soon as their bytes are there.
use vstd::prelude::*;
use vstd::utf8::*;

use crate::text::string_from_utf8;

verus! {

/// Calls `std::str::from_utf8`: how many of the first bytes are valid UTF-8, as the error's
/// `valid_up_to` says where not all are: the greatest number for which they are.
#[verifier::external_body]
fn valid_up_to(bytes: &[u8]) -> (r: usize)
    ensures
        r <= bytes@.len(),
        valid_utf8(bytes@.take(r as int)),
        forall|n: int| r < n <= bytes@.len() ==> !valid_utf8(#[trigger] bytes@.take(n)),
{
    match std::str::from_utf8(bytes) {
        Ok(s) => s.len(),
        Err(e) => e.valid_up_to(),
    }
}

/// What `String::from_utf8_lossy` makes of bytes.
pub uninterp spec fn lossy(bytes: Seq<u8>) -> Seq<char>;

/// Calls `String::from_utf8_lossy` of std: the text of the bytes, with a mark in place of what is no
/// UTF-8. Bytes that are valid UTF-8 are the encoding of the text.
#[verifier::external_body]
pub(crate) fn lossy_text(bytes: &[u8]) -> (r: String)
    ensures
        r@ == lossy(bytes@),
        valid_utf8(bytes@) ==> encode_utf8(r@) == bytes@,
{
    String::from_utf8_lossy(bytes).into_owned()
}

/// How many of the first bytes are whole characters.
pub open spec fn whole(bytes: Seq<u8>) -> int {
    choose|n: int| is_whole(bytes, n)
}

/// `n` is the greatest number of first bytes that are whole characters.
pub open spec fn is_whole(bytes: Seq<u8>, n: int) -> bool {
    &&& 0 <= n <= bytes.len()
    &&& valid_utf8(bytes.take(n))
    &&& forall|m: int| n < m <= bytes.len() ==> !valid_utf8(#[trigger] bytes.take(m))
}

proof fn lemma_whole_one(bytes: Seq<u8>, a: int, b: int)
    requires
        is_whole(bytes, a),
        is_whole(bytes, b),
    ensures
        a == b,
{
    if a < b {
        assert(!valid_utf8(bytes.take(b)));
    } else if b < a {
        assert(!valid_utf8(bytes.take(a)));
    }
}

/// Text on its way out.
pub struct TextStream {
    /// Bytes that are no whole character yet.
    pub pending: Vec<u8>,
    /// Tokens so far.
    pub tokens: usize,
    /// Whether sending has failed.
    pub failed: bool,
}

impl TextStream {
    pub fn new() -> (r: TextStream)
        ensures
            r.pending@ == Seq::<u8>::empty(),
            r.tokens == 0,
            !r.failed,
    {
        TextStream { pending: Vec::new(), tokens: 0, failed: false }
    }

    /// Takes the bytes of a token. Gives back the text that can go out: all whole characters, unless
    /// there are none or sending has failed.
    pub fn push(&mut self, bytes: &[u8]) -> (r: Option<String>)
        requires
            old(self).tokens < usize::MAX,
        ensures
            final(self).tokens == old(self).tokens + 1,
            final(self).failed == old(self).failed,
            ({
                let all = old(self).pending@ + bytes@;
                let n = whole(all);
                &&& is_whole(all, n)
                &&& r is Some <==> n > 0 && !old(self).failed
                &&& r matches Some(s) ==> encode_utf8(s@) == all.take(n) && final(self).pending@
                    == all.skip(n)
                &&& r is None ==> final(self).pending@ == all
            }),
    {
        let ghost all = self.pending@ + bytes@;
        self.tokens = self.tokens + 1;
        let m: usize = bytes.len();
        let mut i: usize = 0;
        while i < m
            invariant
                i <= m,
                m == bytes@.len(),
                self.pending@ == old(self).pending@ + bytes@.take(i as int),
                self.tokens == old(self).tokens + 1,
                self.failed == old(self).failed,
            decreases m - i,
        {
            self.pending.push(bytes[i]);
            assert(self.pending@ =~= old(self).pending@ + bytes@.take(i + 1));
            i = i + 1;
        }
        assert(bytes@.take(m as int) =~= bytes@);
        let n: usize = valid_up_to(self.pending.as_slice());
        proof {
            assert(is_whole(all, n as int));
            lemma_whole_one(all, n as int, whole(all));
        }
        if n == 0 || self.failed {
            return None;
        }
        let rest = self.pending.split_off(n);
        let mut head: Vec<u8> = rest;
        std::mem::swap(&mut head, &mut self.pending);
        assert(head@ == all.take(n as int));
        assert(self.pending@ == all.skip(n as int));
        string_from_utf8(head)
    }
}

/// What has gone out and what is pending once the first `k` tokens are taken, while sending works.
pub open spec fn flow(tokens: Seq<Seq<u8>>, k: int) -> (Seq<u8>, Seq<u8>)
    decreases k,
{
    if k <= 0 {
        (Seq::empty(), Seq::empty())
    } else {
        let (sent, pending) = flow(tokens, k - 1);
        let all = pending + tokens[k - 1];
        (sent + all.take(whole(all)), all.skip(whole(all)))
    }
}

/// All bytes of the first `k` tokens.
pub open spec fn joined(tokens: Seq<Seq<u8>>, k: int) -> Seq<u8>
    decreases k,
{
    if k <= 0 {
        Seq::empty()
    } else {
        joined(tokens, k - 1) + tokens[k - 1]
    }
}

proof fn lemma_whole_exists(bytes: Seq<u8>, n: int)
    requires
        0 <= n <= bytes.len(),
        forall|m: int| n < m <= bytes.len() ==> !valid_utf8(#[trigger] bytes.take(m)),
    ensures
        exists|m: int| is_whole(bytes, m),
    decreases n,
{
    if valid_utf8(bytes.take(n)) {
        assert(is_whole(bytes, n));
    } else if n > 0 {
        lemma_whole_exists(bytes, n - 1);
    } else {
        assert(bytes.take(0) =~= Seq::<u8>::empty());
        assert(valid_utf8(Seq::<u8>::empty()));
    }
}

/// Nothing is lost, nothing comes twice and nothing changes places: what has gone out, and behind it
/// what is pending, are the bytes of the tokens; and what has gone out is valid UTF-8.
pub proof fn law_flow(tokens: Seq<Seq<u8>>, k: int)
    requires
        0 <= k <= tokens.len(),
    ensures
        flow(tokens, k).0 + flow(tokens, k).1 == joined(tokens, k),
        valid_utf8(flow(tokens, k).0),
    decreases k,
{
    if k == 0 {
        assert(flow(tokens, 0).0 + flow(tokens, 0).1 =~= joined(tokens, 0));
    } else {
        law_flow(tokens, k - 1);
        let (sent, pending) = flow(tokens, k - 1);
        let all = pending + tokens[k - 1];
        lemma_whole_exists(all, all.len() as int);
        let n = whole(all);
        assert(is_whole(all, n));
        assert(all.take(n) + all.skip(n) =~= all);
        assert((sent + all.take(n)) + all.skip(n) =~= sent + all);
        assert(sent + all =~= (sent + pending) + tokens[k - 1]);
        valid_utf8_concat(sent, all.take(n));
    }
}

} // verus!
