//! What a rewrite promises of the types it stores and of the options it reads.
use vstd::prelude::*;

use super::recipe;
use super::recipe::{Args, ArgsView, RuleView};
use crate::gguf::TensorType;
use crate::text;
use crate::words;

verus! {

/// A type is kept where the row width is a multiple of its block.
pub proof fn law_fit_keeps(want: TensorType, row: nat)
    ensures
        want.layout() matches Some((bs, _)) && row % (bs as nat) == 0 ==> recipe::fitted_type(
            want,
            row,
        ) == want,
        row % 256 == 0 ==> recipe::fitted_type(want, row) == want,
{
    let q = row / 256;
    vstd::arithmetic::div_mod::lemma_fundamental_div_mod(row as int, 256);
    if row % 256 == 0 {
        assert(row == 32 * (8 * q));
        assert(row % 32 == 0);
    }
}

/// A type is given up only where the row width is no multiple of its block. What is stored instead
/// is 8-bit blocks or half precision, never another type; half precision only where 8-bit blocks do
/// not fit either. Every type with blocks that a target can name is given up there.
pub proof fn law_fit_falls_back(want: TensorType, row: nat)
    ensures
        recipe::fitted_type(want, row) != want ==> {
            &&& want.layout() matches Some((bs, _)) && row % (bs as nat) != 0
            &&& recipe::fitted_type(want, row) == TensorType::Q8_0 || recipe::fitted_type(
                want,
                row,
            ) == TensorType::F16
            &&& recipe::fitted_type(want, row) == TensorType::F16 <==> row % 32 != 0
        },
        (want == TensorType::Q2K || want == TensorType::Q3K || want == TensorType::Q4K || want
            == TensorType::Q5K || want == TensorType::Q6K || want == TensorType::IQ2XXS) && row
            % 256 != 0 ==> recipe::fitted_type(want, row) == if row % 32 == 0 {
            TensorType::Q8_0
        } else {
            TensorType::F16
        },
        want == TensorType::Q8_0 && row % 32 != 0 ==> recipe::fitted_type(want, row)
            == TensorType::F16,
{
}

/// Whatever a target names, the rows of what is stored fill whole blocks.
pub proof fn law_stored_rows_whole(name: Seq<char>, row: nat)
    ensures
        recipe::type_named(name) matches Some(want) ==> (recipe::fitted_type(
            want,
            row,
        ).layout() matches Some((bs, _)) && row % (bs as nat) == 0),
{
}

proof fn lemma_type_names()
    ensures
        "q8_0"@.len() == 4,
        "q2_k"@.len() == 4,
        "q3_k"@.len() == 4,
        "q4_k"@.len() == 4,
        "q5_k"@.len() == 4,
        "q6_k"@.len() == 4,
        "iq2_xxs"@.len() == 7,
        "f16"@.len() == 3,
        "f32"@.len() == 3,
        "q8_0"@[1] == '8',
        "q2_k"@[1] == '2',
        "q3_k"@[1] == '3',
        "q4_k"@[1] == '4',
        "q5_k"@[1] == '5',
        "q6_k"@[1] == '6',
        "f16"@[1] == '1',
        "f32"@[1] == '3',
{
    reveal_strlit("q8_0");
    reveal_strlit("q2_k");
    reveal_strlit("q3_k");
    reveal_strlit("q4_k");
    reveal_strlit("q5_k");
    reveal_strlit("q6_k");
    reveal_strlit("iq2_xxs");
    reveal_strlit("f16");
    reveal_strlit("f32");
}

/// The names of the target types, and that there are no others.
pub proof fn law_target_names(s: Seq<char>)
    ensures
        recipe::type_named(s) == Some(TensorType::Q8_0) <==> s == "q8_0"@,
        recipe::type_named(s) == Some(TensorType::Q2K) <==> s == "q2_k"@,
        recipe::type_named(s) == Some(TensorType::Q3K) <==> s == "q3_k"@,
        recipe::type_named(s) == Some(TensorType::Q4K) <==> s == "q4_k"@,
        recipe::type_named(s) == Some(TensorType::Q5K) <==> s == "q5_k"@,
        recipe::type_named(s) == Some(TensorType::Q6K) <==> s == "q6_k"@,
        recipe::type_named(s) == Some(TensorType::IQ2XXS) <==> s == "iq2_xxs"@,
        recipe::type_named(s) == Some(TensorType::F16) <==> s == "f16"@,
        recipe::type_named(s) == Some(TensorType::F32) <==> s == "f32"@,
        recipe::type_named(s) is None <==> s != "q8_0"@ && s != "q2_k"@ && s != "q3_k"@ && s
            != "q4_k"@ && s != "q5_k"@ && s != "q6_k"@ && s != "iq2_xxs"@ && s != "f16"@ && s
            != "f32"@,
{
    lemma_type_names();
}

/// Upper and lower case do not matter: two names that differ only in it are read alike, and a name
/// that is refused is refused in lower case.
pub proof fn law_target_case(s: Seq<char>, t: Seq<char>)
    requires
        words::lowered(s) == words::lowered(t),
    ensures
        recipe::type_or_fault(s) == recipe::type_or_fault(t),
        recipe::type_or_fault(s) is Ok <==> recipe::type_named(words::lowered(s)) is Some,
        recipe::type_or_fault(s) matches Ok(ty) ==> recipe::type_named(words::lowered(s)) == Some(
            ty,
        ),
        recipe::type_or_fault(s) matches Err(e) ==> e == "unknown target type "@ + words::lowered(s)
            + " (stage 1: q8_0 q2_k..q6_k f16 f32)"@,
{
}

proof fn lemma_first_match(maps: Seq<RuleView>, from: int, k: int, name: Seq<char>)
    requires
        0 <= from <= k <= maps.len(),
        forall|j: int| from <= j < k ==> !words::within(name, (#[trigger] maps[j]).pattern),
    ensures
        recipe::first_match(maps, from, name) == recipe::first_match(maps, k, name),
    decreases k - from,
{
    if from < k {
        assert(!words::within(name, maps[from].pattern));
        lemma_first_match(maps, from + 1, k, name);
    }
}

/// A tensor is asked for in the type of the first rule whose pattern stands in its name, wherever it
/// stands there; and in the default type where no pattern does.
pub proof fn law_first_pattern_decides(a: ArgsView, k: int, name: Seq<char>)
    requires
        0 <= k <= a.maps.len(),
        forall|j: int| 0 <= j < k ==> !words::within(name, (#[trigger] a.maps[j]).pattern),
    ensures
        k < a.maps.len() && words::within(name, a.maps[k].pattern) ==> recipe::wanted_type(a, name)
            == a.maps[k].ty,
        k == a.maps.len() ==> recipe::wanted_type(a, name) == a.default_ty,
{
    lemma_first_match(a.maps, 0, k, name);
}

/// A pattern stands in a name wherever the name is written around it, and nowhere else.
pub proof fn law_pattern_anywhere(before: Seq<char>, p: Seq<char>, behind: Seq<char>, s: Seq<char>)
    ensures
        words::within(before + p + behind, p),
        words::within(s, p) ==> exists|a: Seq<char>, b: Seq<char>| s == #[trigger] (a + p + b),
{
    let t = before + p + behind;
    let i = before.len() as int;
    assert(t.subrange(i, i + p.len()) =~= p);
    assert(words::stands_at(t, p, i));
    if words::within(s, p) {
        let i = choose|i: int| #[trigger] words::stands_at(s, p, i);
        let a = s.take(i);
        let b = s.skip(i + p.len());
        assert(s =~= a + p + b);
    }
}

/// A tensor of fewer than two axes stays in single precision, whatever the rules say. Any other is
/// fitted to its first extent, and to no other one.
pub proof fn law_picked(a: ArgsView, name: Seq<char>, dims: Seq<u64>, others: Seq<u64>)
    ensures
        dims.len() < 2 ==> recipe::picked_type(a, name, dims) == TensorType::F32,
        dims.len() >= 2 && others.len() >= 2 && dims[0] == others[0] ==> recipe::picked_type(
            a,
            name,
            dims,
        ) == recipe::picked_type(a, name, others),
        dims.len() >= 2 && dims[0] as nat % 256 == 0 ==> recipe::picked_type(a, name, dims)
            == recipe::wanted_type(a, name),
        dims.len() >= 2 ==> recipe::picked_type(a, name, dims) == recipe::fitted_type(
            recipe::wanted_type(a, name),
            dims[0] as nat,
        ),
{
    if dims.len() >= 2 {
        law_fit_keeps(recipe::wanted_type(a, name), dims[0] as nat);
    }
}

/// Two-bit codebook blocks are stored only with weights: one for each element of a row, or for each
/// element of a row of every slice. `Q2_K` takes their place without, and no other type changes.
pub proof fn law_settled(picked: TensorType, dims: Seq<u64>, n: nat)
    requires
        dims.len() >= 2,
    ensures
        picked != TensorType::IQ2XXS ==> recipe::final_type(picked, dims, None) == picked
            && recipe::final_type(picked, dims, Some(n)) == picked,
        recipe::final_type(TensorType::IQ2XXS, dims, None) == TensorType::Q2K,
        recipe::final_type(TensorType::IQ2XXS, dims, Some(dims[0] as nat)) == TensorType::IQ2XXS,
        dims.len() > 2 ==> recipe::final_type(
            TensorType::IQ2XXS,
            dims,
            Some(dims[0] as nat * dims[2] as nat),
        ) == TensorType::IQ2XXS,
        n != dims[0] && (dims.len() > 2 ==> n != dims[0] * dims[2]) ==> recipe::final_type(
            TensorType::IQ2XXS,
            dims,
            Some(n),
        ) == TensorType::Q2K,
{
}

/// A rewrite reads floating-point tensors and no others.
pub proof fn law_sources(ty: TensorType)
    ensures
        recipe::is_float(ty) <==> ty == TensorType::F32 || ty == TensorType::F16 || ty
            == TensorType::BF16,
{
}

proof fn lemma_rules(parts: Seq<Seq<char>>, i: int, acc: Seq<RuleView>)
    requires
        0 <= i <= parts.len(),
    ensures
        match recipe::rules_of(parts, i, acc) {
            Ok(rs) => {
                &&& rs.len() == acc.len() + parts.len() - i
                &&& rs.take(acc.len() as int) == acc
                &&& forall|j: int|
                    i <= j < parts.len() ==> recipe::rule_of(#[trigger] parts[j]) == Ok::<
                        _,
                        Seq<char>,
                    >(rs[acc.len() + j - i])
            },
            Err(e) => exists|k: int|
                i <= k < parts.len() && recipe::rule_of(#[trigger] parts[k]) == Err::<
                    RuleView,
                    _,
                >(e) && forall|j: int| i <= j < k ==> recipe::rule_of(#[trigger] parts[j]) is Ok,
        },
    decreases parts.len() - i,
{
    if i < parts.len() {
        match recipe::rule_of(parts[i]) {
            Ok(r) => {
                lemma_rules(parts, i + 1, acc.push(r));
                match recipe::rules_of(parts, i + 1, acc.push(r)) {
                    Ok(rs) => {
                        assert(rs.take(acc.len() as int) =~= rs.take(acc.len() as int + 1).take(
                            acc.len() as int,
                        ));
                        assert(acc.push(r).take(acc.len() as int) =~= acc);
                        assert(rs.take(acc.len() as int + 1)[acc.len() as int] == r);
                        assert(rs[acc.len() as int] == r);
                    },
                    Err(e) => {
                        let k = choose|k: int|
                            i + 1 <= k < parts.len() && recipe::rule_of(#[trigger] parts[k])
                                == Err::<RuleView, _>(e) && forall|j: int|
                                i + 1 <= j < k ==> recipe::rule_of(#[trigger] parts[j]) is Ok;
                        assert(recipe::rule_of(parts[k]) == Err::<RuleView, _>(e));
                    },
                }
            },
            Err(e) => {
                assert(recipe::rule_of(parts[i]) == Err::<RuleView, _>(e));
            },
        }
    } else {
        assert(acc.take(acc.len() as int) =~= acc);
    }
}

/// A list of rules adds one rule for each entry, in order, behind those that are there; the first
/// entry that is none is complained of.
pub proof fn law_rules_in_order(parts: Seq<Seq<char>>, acc: Seq<RuleView>)
    ensures
        match recipe::rules_of(parts, 0, acc) {
            Ok(rs) => {
                &&& rs.len() == acc.len() + parts.len()
                &&& rs.take(acc.len() as int) == acc
                &&& forall|j: int|
                    0 <= j < parts.len() ==> recipe::rule_of(#[trigger] parts[j]) == Ok::<
                        _,
                        Seq<char>,
                    >(rs[acc.len() + j])
            },
            Err(e) => exists|k: int|
                0 <= k < parts.len() && recipe::rule_of(#[trigger] parts[k]) == Err::<
                    RuleView,
                    _,
                >(e) && forall|j: int| 0 <= j < k ==> recipe::rule_of(#[trigger] parts[j]) is Ok,
        },
{
    lemma_rules(parts, 0, acc);
}

/// An entry is a pattern, the first equals sign, and the name of a type; without such a sign it is
/// refused by itself.
pub proof fn law_rule_written(pattern: Seq<char>, name: Seq<char>, part: Seq<char>)
    requires
        !pattern.contains('='),
        !part.contains('='),
    ensures
        recipe::type_or_fault(name) matches Ok(ty) ==> recipe::rule_of(pattern + seq!['='] + name)
            == Ok::<_, Seq<char>>(RuleView { pattern, ty }),
        recipe::type_or_fault(name) matches Err(e) ==> recipe::rule_of(pattern + seq!['='] + name)
            == Err::<RuleView, _>(e),
        recipe::rule_of(part) == Err::<RuleView, _>("bad --map entry "@ + part),
{
    words::law_cut(pattern, name, '=');
    words::law_cut_none(part, '=');
}

proof fn lemma_options()
    ensures
        "-i"@.len() == 2,
        "-o"@.len() == 2,
        "--map"@.len() == 5,
        "--default"@.len() == 9,
        "--imatrix"@.len() == 9,
        "--fetch-cmd"@.len() == 11,
        "--header-reserve"@.len() == 16,
        "--delete-shards"@.len() == 15,
        "-i"@[1] == 'i',
        "-o"@[1] == 'o',
        "--default"@[2] == 'd',
        "--imatrix"@[2] == 'i',
{
    reveal_strlit("-i");
    reveal_strlit("-o");
    reveal_strlit("--map");
    reveal_strlit("--default");
    reveal_strlit("--imatrix");
    reveal_strlit("--fetch-cmd");
    reveal_strlit("--header-reserve");
    reveal_strlit("--delete-shards");
}

/// Each option sets what it names and leaves the rest.
pub proof fn law_options_set(v: Seq<char>, st: ArgsView)
    ensures
        recipe::with_value("-i"@, v, st) == Ok::<_, Seq<char>>(
            (ArgsView { input: Some(v), ..st }),
        ),
        recipe::with_value("-o"@, v, st) == Ok::<_, Seq<char>>(
            (ArgsView { output: Some(v), ..st }),
        ),
        recipe::with_value("--imatrix"@, v, st) == Ok::<_, Seq<char>>(
            (ArgsView { imatrix: Some(v), ..st }),
        ),
        recipe::with_value("--fetch-cmd"@, v, st) == Ok::<_, Seq<char>>(
            (ArgsView { fetch_cmd: Some(v), ..st }),
        ),
        recipe::type_or_fault(v) matches Ok(ty) ==> recipe::with_value("--default"@, v, st)
            == Ok::<_, Seq<char>>((ArgsView { default_ty: ty, ..st })),
        recipe::type_or_fault(v) matches Err(e) ==> recipe::with_value("--default"@, v, st)
            == Err::<ArgsView, _>(e),
        recipe::rules_of(words::pieces(v, ','), 0, st.maps) matches Ok(maps) ==> recipe::with_value(
            "--map"@,
            v,
            st,
        ) == Ok::<_, Seq<char>>((ArgsView { maps, ..st })),
        recipe::rules_of(words::pieces(v, ','), 0, st.maps) matches Err(e) ==> recipe::with_value(
            "--map"@,
            v,
            st,
        ) == Err::<ArgsView, _>(e),
        text::numeral_u64(v) matches Some(n) ==> recipe::with_value("--header-reserve"@, v, st)
            == Ok::<_, Seq<char>>((ArgsView { header_reserve_mb: Some(n), ..st })),
        text::numeral_u64(v) is None ==> recipe::with_value("--header-reserve"@, v, st) is Err,
{
    lemma_options();
}

/// Arguments are read from the left. An option takes the argument behind it as its value, and one
/// that stands last is complained of; the flag takes none; anything else is unknown. Before any of
/// them, nothing is named and the default type is that of 8-bit blocks.
pub proof fn law_arguments(args: Seq<Seq<char>>, i: int, st: ArgsView)
    requires
        0 <= i < args.len(),
    ensures
        recipe::takes_value(args[i]) <==> args[i] == "-i"@ || args[i] == "-o"@ || args[i]
            == "--map"@ || args[i] == "--default"@ || args[i] == "--imatrix"@ || args[i]
            == "--fetch-cmd"@ || args[i] == "--header-reserve"@,
        recipe::takes_value(args[i]) && i + 1 == args.len() ==> recipe::args_of(args, i, st)
            == Err::<ArgsView, _>(args[i] + " needs a value"@),
        recipe::takes_value(args[i]) && i + 1 < args.len() ==> recipe::args_of(args, i, st) == (
        match recipe::with_value(args[i], args[i + 1], st) {
            Ok(next) => recipe::args_of(args, i + 2, next),
            Err(e) => Err(e),
        }),
        args[i] == "--delete-shards"@ ==> recipe::args_of(args, i, st) == recipe::args_of(
            args,
            i + 1,
            (ArgsView { delete_shards: true, ..st }),
        ),
        !recipe::takes_value(args[i]) && args[i] != "--delete-shards"@ ==> recipe::args_of(
            args,
            i,
            st,
        ) == Err::<ArgsView, _>("unknown arg "@ + args[i]),
        recipe::args_of(args, args.len() as int, st) == Ok::<_, Seq<char>>(st),
        recipe::no_args() == (ArgsView {
            input: None,
            output: None,
            maps: Seq::empty(),
            default_ty: TensorType::Q8_0,
            imatrix: None,
            fetch_cmd: None,
            delete_shards: false,
            header_reserve_mb: None,
        }),
{
    lemma_options();
}

/// What a command line says is what its fields hold.
pub proof fn law_arguments_seen(a: Args, i: int)
    ensures
        a.input matches Some(s) ==> a@.input == Some(s@),
        a.output matches Some(s) ==> a@.output == Some(s@),
        a.imatrix matches Some(s) ==> a@.imatrix == Some(s@),
        a.fetch_cmd matches Some(s) ==> a@.fetch_cmd == Some(s@),
        a.input is None <==> a@.input is None,
        a.output is None <==> a@.output is None,
        a.imatrix is None <==> a@.imatrix is None,
        a.fetch_cmd is None <==> a@.fetch_cmd is None,
        a@.default_ty == a.default_ty,
        a@.delete_shards == a.delete_shards,
        a@.header_reserve_mb == a.header_reserve_mb,
        a@.maps.len() == a.maps@.len(),
        0 <= i < a.maps@.len() ==> a@.maps[i].pattern == a.maps@[i].pattern@ && a@.maps[i].ty
            == a.maps@[i].ty,
{
}

} // verus!
