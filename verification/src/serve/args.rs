//! Settings of the server.
use vstd::prelude::*;

use crate::text;
use crate::text::{owned, parse_u64, push_str, same_str, to_chars};
use crate::words;
use crate::words::complain_of_numeral;

verus! {

/// Settings of the server.
pub struct ServeArgs {
    pub model: String,
    pub port: u16,
    pub host: String,
    pub ctx: u32,
}

/// What the settings say, and the model where one is named.
pub struct Settings {
    pub model: Option<Seq<char>>,
    pub port: u16,
    pub host: Seq<char>,
    pub ctx: u32,
}

/// The settings before any argument.
pub open spec fn defaults() -> Settings {
    Settings { model: None, port: 11435, host: "127.0.0.1"@, ctx: 8192 }
}

/// The number that an argument writes, at most `max`; or what is wrong with it.
pub open spec fn number(v: Seq<char>, max: u64) -> Result<u64, Seq<char>> {
    match text::numeral(v) {
        Some(n) => if n <= max {
            Ok(n as u64)
        } else {
            Err(words::numeral_fault(v, max))
        },
        None => Err(words::numeral_fault(v, max)),
    }
}

/// The settings once the value `v` of option `name` is taken.
pub open spec fn taken(s: Settings, name: Seq<char>, v: Seq<char>) -> Result<Settings, Seq<char>> {
    if name == "-m"@ {
        Ok(Settings { model: Some(v), ..s })
    } else if name == "--port"@ {
        match number(v, 0xffff) {
            Ok(n) => Ok(Settings { port: n as u16, ..s }),
            Err(e) => Err(e),
        }
    } else if name == "--host"@ {
        Ok(Settings { host: v, ..s })
    } else {
        match number(v, 0xffff_ffff) {
            Ok(n) => Ok(Settings { ctx: n as u32, ..s }),
            Err(e) => Err(e),
        }
    }
}

/// An option of the server.
pub open spec fn is_option(a: Seq<char>) -> bool {
    a == "-m"@ || a == "--port"@ || a == "--host"@ || a == "--ctx"@
}

/// The settings once the arguments from `i` on are read.
pub open spec fn settings(args: Seq<Seq<char>>, s: Settings, i: int) -> Result<Settings, Seq<char>>
    decreases args.len() - i,
{
    if i >= args.len() {
        Ok(s)
    } else if !is_option(args[i]) {
        Err("unknown arg "@ + args[i])
    } else if i + 1 >= args.len() {
        Err(args[i] + " needs a value"@)
    } else {
        match taken(s, args[i], args[i + 1]) {
            Ok(t) => settings(args, t, i + 2),
            Err(e) => Err(e),
        }
    }
}

/// What the arguments ask for, or what is wrong with them.
pub open spec fn asked(args: Seq<Seq<char>>) -> Result<Settings, Seq<char>> {
    match settings(args, defaults(), 0) {
        Ok(s) => if s.model is None {
            Err("missing -m MODEL.gguf"@)
        } else {
            Ok(s)
        },
        Err(e) => Err(e),
    }
}

/// The number that an argument writes.
fn number_of(v: &str, max: u64) -> (r: Result<u64, String>)
    ensures
        match (r, number(v@, max)) {
            (Ok(n), Ok(m)) => n == m,
            (Err(e), Err(f)) => e@ == f,
            _ => false,
        },
        r matches Ok(n) ==> n <= max,
{
    match parse_u64(to_chars(v).as_slice()) {
        Some(n) => if n <= max {
            return Ok(n);
        },
        None => {},
    }
    Err(owned(complain_of_numeral(v, max)))
}

/// Reads the arguments of the server.
pub fn parse_args(args: &Vec<String>) -> (r: Result<ServeArgs, String>)
    ensures
        match (r, asked(words::strings(args@))) {
            (Ok(a), Ok(s)) => s.model == Some(a.model@) && s.port == a.port && s.host == a.host@
                && s.ctx == a.ctx,
            (Err(e), Err(f)) => e@ == f,
            _ => false,
        },
{
    let n: usize = args.len();
    let ghost all = words::strings(args@);
    let mut model: Option<String> = None;
    let mut port: u16 = 11435;
    let mut host: String = owned("127.0.0.1");
    let mut ctx: u32 = 8192;
    let mut i: usize = 0;
    while i < n
        invariant
            i <= n,
            n == args@.len(),
            all == words::strings(args@),
            settings(all, defaults(), 0) == settings(
                all,
                Settings {
                    model: match model {
                        Some(m) => Some(m@),
                        None => None,
                    },
                    port,
                    host: host@,
                    ctx,
                },
                i as int,
            ),
        decreases n - i,
    {
        let a: &str = args[i].as_str();
        assert(all[i as int] == a@);
        let which: u8 = if same_str(a, "-m") {
            0
        } else if same_str(a, "--port") {
            1
        } else if same_str(a, "--host") {
            2
        } else if same_str(a, "--ctx") {
            3
        } else {
            let mut e = owned("unknown arg ");
            push_str(&mut e, a);
            return Err(e);
        };
        proof {
            reveal_strlit("-m");
            reveal_strlit("--port");
            reveal_strlit("--host");
            reveal_strlit("--ctx");
            assert("--port"@[2] != "--host"@[2]);
            assert("--port"@[2] != "--ctx"@[2]);
            assert("--host"@[2] != "--ctx"@[2]);
        }
        if i + 1 >= n {
            let mut e = owned(a);
            push_str(&mut e, " needs a value");
            return Err(e);
        }
        let v: &str = args[i + 1].as_str();
        assert(all[i + 1] == v@);
        if which == 0 {
            model = Some(owned(v));
        } else if which == 1 {
            match number_of(v, 0xffff) {
                Ok(p) => {
                    port = p as u16;
                },
                Err(e) => {
                    return Err(e);
                },
            }
        } else if which == 2 {
            host = owned(v);
        } else {
            match number_of(v, 0xffff_ffff) {
                Ok(c) => {
                    ctx = c as u32;
                },
                Err(e) => {
                    return Err(e);
                },
            }
        }
        i = i + 2;
    }
    match model {
        Some(model) => Ok(ServeArgs { model, port, host, ctx }),
        None => Err(owned("missing -m MODEL.gguf")),
    }
}

} // verus!
