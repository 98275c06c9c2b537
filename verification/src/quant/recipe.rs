//! What a rewrite is asked for: command line, target types, and the type each tensor gets.
use vstd::prelude::*;

use crate::words;
use crate::words::{complain_of_numeral, contains, split, split_once, to_lower};
use crate::gguf::tensor;
use crate::gguf::TensorType;
use crate::text;
use crate::text::{owned, parse_u64, push_str, same_str, to_chars};

verus! {

/// The target type of a lower-case name.
pub open spec fn type_named(s: Seq<char>) -> Option<TensorType> {
    if s == "q8_0"@ {
        Some(TensorType::Q8_0)
    } else if s == "q2_k"@ {
        Some(TensorType::Q2K)
    } else if s == "q3_k"@ {
        Some(TensorType::Q3K)
    } else if s == "q4_k"@ {
        Some(TensorType::Q4K)
    } else if s == "q5_k"@ {
        Some(TensorType::Q5K)
    } else if s == "q6_k"@ {
        Some(TensorType::Q6K)
    } else if s == "iq2_xxs"@ {
        Some(TensorType::IQ2XXS)
    } else if s == "f16"@ {
        Some(TensorType::F16)
    } else if s == "f32"@ {
        Some(TensorType::F32)
    } else {
        None
    }
}

/// The complaint about a name that names no target type.
pub open spec fn unknown_type_text(s: Seq<char>) -> Seq<char> {
    "unknown target type "@ + s + " (stage 1: q8_0 q2_k..q6_k f16 f32)"@
}

/// What a name says, in any case of its ASCII letters.
pub open spec fn type_or_fault(s: Seq<char>) -> Result<TensorType, Seq<char>> {
    match type_named(words::lowered(s)) {
        Some(t) => Ok(t),
        None => Err(unknown_type_text(words::lowered(s))),
    }
}

/// The same result, its complaint as a string or as its characters.
pub open spec fn agree<T>(r: Result<T, String>, s: Result<T, Seq<char>>) -> bool {
    match r {
        Ok(t) => s == Ok::<T, Seq<char>>(t),
        Err(e) => s == Err::<T, Seq<char>>(e@),
    }
}

/// Joins two strings.
fn concat(a: &str, b: &str) -> (r: String)
    ensures
        r@ == a@ + b@,
{
    let mut s = String::new();
    push_str(&mut s, a);
    push_str(&mut s, b);
    assert(s@ =~= a@ + b@);
    s
}

/// The target type that a name stands for.
pub fn parse_type(s: &str) -> (r: Result<TensorType, String>)
    ensures
        agree(r, type_or_fault(s@)),
{
    let l = to_lower(s);
    let n = l.as_str();
    let t: TensorType = if same_str(n, "q8_0") {
        TensorType::Q8_0
    } else if same_str(n, "q2_k") {
        TensorType::Q2K
    } else if same_str(n, "q3_k") {
        TensorType::Q3K
    } else if same_str(n, "q4_k") {
        TensorType::Q4K
    } else if same_str(n, "q5_k") {
        TensorType::Q5K
    } else if same_str(n, "q6_k") {
        TensorType::Q6K
    } else if same_str(n, "iq2_xxs") {
        TensorType::IQ2XXS
    } else if same_str(n, "f16") {
        TensorType::F16
    } else if same_str(n, "f32") {
        TensorType::F32
    } else {
        let mut m = concat("unknown target type ", n);
        push_str(&mut m, " (stage 1: q8_0 q2_k..q6_k f16 f32)");
        return Err(m);
    };
    Ok(t)
}

/// A rule: tensors whose name contains the pattern get the type.
pub struct Rule {
    pub pattern: String,
    pub ty: TensorType,
}

/// What a rule says.
pub struct RuleView {
    pub pattern: Seq<char>,
    pub ty: TensorType,
}

/// What a run of rules says.
pub open spec fn rule_views(s: Seq<Rule>) -> Seq<RuleView> {
    s.map_values(|r: Rule| RuleView { pattern: r.pattern@, ty: r.ty })
}

/// What the command line asks for.
pub struct Args {
    pub input: Option<String>,
    pub output: Option<String>,
    pub maps: Vec<Rule>,
    pub default_ty: TensorType,
    pub imatrix: Option<String>,
    pub fetch_cmd: Option<String>,
    pub delete_shards: bool,
    pub header_reserve_mb: Option<u64>,
}

/// What a command line says.
pub struct ArgsView {
    pub input: Option<Seq<char>>,
    pub output: Option<Seq<char>>,
    pub maps: Seq<RuleView>,
    pub default_ty: TensorType,
    pub imatrix: Option<Seq<char>>,
    pub fetch_cmd: Option<Seq<char>>,
    pub delete_shards: bool,
    pub header_reserve_mb: Option<u64>,
}

/// The characters of an optional string.
pub open spec fn opt(s: Option<String>) -> Option<Seq<char>> {
    match s {
        Some(s) => Some(s@),
        None => None,
    }
}

impl View for Args {
    type V = ArgsView;

    open spec fn view(&self) -> ArgsView {
        ArgsView {
            input: opt(self.input),
            output: opt(self.output),
            maps: rule_views(self.maps@),
            default_ty: self.default_ty,
            imatrix: opt(self.imatrix),
            fetch_cmd: opt(self.fetch_cmd),
            delete_shards: self.delete_shards,
            header_reserve_mb: self.header_reserve_mb,
        }
    }
}

/// What holds before any argument is read.
pub open spec fn no_args() -> ArgsView {
    ArgsView {
        input: None,
        output: None,
        maps: Seq::empty(),
        default_ty: TensorType::Q8_0,
        imatrix: None,
        fetch_cmd: None,
        delete_shards: false,
        header_reserve_mb: None,
    }
}

/// The rule that an entry `pattern=type` writes.
pub open spec fn rule_of(part: Seq<char>) -> Result<RuleView, Seq<char>> {
    match words::cut(part, '=') {
        None => Err("bad --map entry "@ + part),
        Some((pattern, name)) => match type_or_fault(name) {
            Ok(ty) => Ok(RuleView { pattern, ty }),
            Err(e) => Err(e),
        },
    }
}

/// The rules of the entries from `i` on, behind those in `acc`.
pub open spec fn rules_of(parts: Seq<Seq<char>>, i: int, acc: Seq<RuleView>) -> Result<
    Seq<RuleView>,
    Seq<char>,
>
    decreases parts.len() - i,
{
    if i >= parts.len() {
        Ok(acc)
    } else {
        match rule_of(parts[i]) {
            Ok(r) => rules_of(parts, i + 1, acc.push(r)),
            Err(e) => Err(e),
        }
    }
}

/// An option that takes a value.
pub open spec fn takes_value(a: Seq<char>) -> bool {
    ||| a == "-i"@
    ||| a == "-o"@
    ||| a == "--map"@
    ||| a == "--default"@
    ||| a == "--imatrix"@
    ||| a == "--fetch-cmd"@
    ||| a == "--header-reserve"@
}

/// What an option with its value adds.
pub open spec fn with_value(a: Seq<char>, v: Seq<char>, st: ArgsView) -> Result<
    ArgsView,
    Seq<char>,
> {
    if a == "-i"@ {
        Ok(ArgsView { input: Some(v), ..st })
    } else if a == "-o"@ {
        Ok(ArgsView { output: Some(v), ..st })
    } else if a == "--map"@ {
        match rules_of(words::pieces(v, ','), 0, st.maps) {
            Ok(maps) => Ok(ArgsView { maps, ..st }),
            Err(e) => Err(e),
        }
    } else if a == "--default"@ {
        match type_or_fault(v) {
            Ok(default_ty) => Ok(ArgsView { default_ty, ..st }),
            Err(e) => Err(e),
        }
    } else if a == "--imatrix"@ {
        Ok(ArgsView { imatrix: Some(v), ..st })
    } else if a == "--fetch-cmd"@ {
        Ok(ArgsView { fetch_cmd: Some(v), ..st })
    } else {
        match text::numeral_u64(v) {
            Some(n) => Ok(ArgsView { header_reserve_mb: Some(n), ..st }),
            None => Err(words::numeral_fault(v, u64::MAX)),
        }
    }
}

/// What the arguments from `i` on add, or the first complaint about them.
pub open spec fn args_of(args: Seq<Seq<char>>, i: int, st: ArgsView) -> Result<
    ArgsView,
    Seq<char>,
>
    decreases args.len() - i,
{
    if i >= args.len() {
        Ok(st)
    } else if takes_value(args[i]) {
        if i + 1 >= args.len() {
            Err(args[i] + " needs a value"@)
        } else {
            match with_value(args[i], args[i + 1], st) {
                Ok(st) => args_of(args, i + 2, st),
                Err(e) => Err(e),
            }
        }
    } else if args[i] == "--delete-shards"@ {
        args_of(args, i + 1, ArgsView { delete_shards: true, ..st })
    } else {
        Err("unknown arg "@ + args[i])
    }
}

/// Whether an option takes a value.
fn needs_value(a: &str) -> (r: bool)
    ensures
        r == takes_value(a@),
{
    same_str(a, "-i") || same_str(a, "-o") || same_str(a, "--map") || same_str(a, "--default")
        || same_str(a, "--imatrix") || same_str(a, "--fetch-cmd") || same_str(a, "--header-reserve")
}

/// Adds the rules of a list.
fn add_rules(maps: &mut Vec<Rule>, v: &str) -> (r: Result<(), String>)
    ensures
        match r {
            Ok(()) => rules_of(words::pieces(v@, ','), 0, rule_views(old(maps)@)) == Ok::<
                _,
                Seq<char>,
            >(rule_views(final(maps)@)),
            Err(e) => rules_of(words::pieces(v@, ','), 0, rule_views(old(maps)@)) == Err::<
                Seq<RuleView>,
                _,
            >(e@),
        },
{
    let parts = split(v, ',');
    let ghost ps = words::pieces(v@, ',');
    let ghost start = rule_views(maps@);
    let mut i: usize = 0;
    while i < parts.len()
        invariant
            i <= parts@.len(),
            ps == words::strings(parts@),
            rules_of(ps, 0, start) == rules_of(ps, i as int, rule_views(maps@)),
            start == rule_views(old(maps)@),
            ps == words::pieces(v@, ','),
        decreases parts@.len() - i,
    {
        let part = parts[i].as_str();
        assert(ps[i as int] == part@);
        match split_once(part, '=') {
            None => {
                return Err(concat("bad --map entry ", part));
            },
            Some((pattern, name)) => match parse_type(name.as_str()) {
                Err(e) => {
                    return Err(e);
                },
                Ok(ty) => {
                    let ghost before = rule_views(maps@);
                    maps.push(Rule { pattern, ty });
                    assert(rule_views(maps@) =~= before.push(RuleView { pattern: pattern@, ty }));
                },
            },
        }
        i = i + 1;
    }
    Ok(())
}

impl Args {
    pub fn new() -> (r: Args)
        ensures
            r@ == no_args(),
    {
        let r = Args {
            input: None,
            output: None,
            maps: Vec::new(),
            default_ty: TensorType::Q8_0,
            imatrix: None,
            fetch_cmd: None,
            delete_shards: false,
            header_reserve_mb: None,
        };
        assert(rule_views(r.maps@) =~= Seq::<RuleView>::empty());
        r
    }

    /// Takes an option and its value.
    fn set(&mut self, a: &str, v: &str) -> (r: Result<(), String>)
        requires
            takes_value(a@),
        ensures
            match r {
                Ok(()) => with_value(a@, v@, old(self)@) == Ok::<_, Seq<char>>(final(self)@),
                Err(e) => with_value(a@, v@, old(self)@) == Err::<ArgsView, _>(e@),
            },
    {
        if same_str(a, "-i") {
            self.input = Some(owned(v));
        } else if same_str(a, "-o") {
            self.output = Some(owned(v));
        } else if same_str(a, "--map") {
            match add_rules(&mut self.maps, v) {
                Ok(()) => {},
                Err(e) => {
                    return Err(e);
                },
            }
        } else if same_str(a, "--default") {
            match parse_type(v) {
                Ok(t) => {
                    self.default_ty = t;
                },
                Err(e) => {
                    return Err(e);
                },
            }
        } else if same_str(a, "--imatrix") {
            self.imatrix = Some(owned(v));
        } else if same_str(a, "--fetch-cmd") {
            self.fetch_cmd = Some(owned(v));
        } else {
            match parse_u64(to_chars(v).as_slice()) {
                Some(n) => {
                    self.header_reserve_mb = Some(n);
                },
                None => {
                    return Err(owned(complain_of_numeral(v, u64::MAX)));
                },
            }
        }
        Ok(())
    }
}

/// Reads the arguments of a rewrite, without the program's name.
pub fn parse_args(args: &Vec<String>) -> (r: Result<Args, String>)
    ensures
        match r {
            Ok(a) => args_of(words::strings(args@), 0, no_args()) == Ok::<_, Seq<char>>(a@),
            Err(e) => args_of(words::strings(args@), 0, no_args()) == Err::<ArgsView, _>(e@),
        },
{
    let ghost ss = words::strings(args@);
    let n: usize = args.len();
    let mut st = Args::new();
    let mut i: usize = 0;
    while i < n
        invariant
            i <= n,
            n == args@.len(),
            ss == words::strings(args@),
            args_of(ss, 0, no_args()) == args_of(ss, i as int, st@),
        decreases n - i,
    {
        let a = args[i].as_str();
        assert(ss[i as int] == a@);
        if needs_value(a) {
            if i + 1 >= n {
                return Err(concat(a, " needs a value"));
            }
            let v = args[i + 1].as_str();
            assert(ss[i + 1] == v@);
            match st.set(a, v) {
                Ok(()) => {},
                Err(e) => {
                    return Err(e);
                },
            }
            i = i + 2;
        } else if same_str(a, "--delete-shards") {
            st.delete_shards = true;
            i = i + 1;
        } else {
            return Err(concat("unknown arg ", a));
        }
    }
    Ok(st)
}

/// The two paths that a rewrite cannot do without.
pub fn required_paths(args: &Args) -> (r: Result<(&String, &String), &'static str>)
    ensures
        match r {
            Ok((i, o)) => args@.input == Some(i@) && args@.output == Some(o@),
            Err(e) => if args@.input is None {
                e@ == "-i required"@
            } else {
                args@.output is None && e@ == "-o required"@
            },
        },
{
    match (&args.input, &args.output) {
        (None, _) => Err("-i required"),
        (Some(_), None) => Err("-o required"),
        (Some(i), Some(o)) => Ok((i, o)),
    }
}

/// The type of the first rule from `k` on whose pattern stands in the name.
pub open spec fn first_match(maps: Seq<RuleView>, k: int, name: Seq<char>) -> Option<TensorType>
    decreases maps.len() - k,
{
    if k >= maps.len() {
        None
    } else if words::within(name, maps[k].pattern) {
        Some(maps[k].ty)
    } else {
        first_match(maps, k + 1, name)
    }
}

/// The type asked for a tensor: that of the first rule that matches, else the default.
pub open spec fn wanted_type(a: ArgsView, name: Seq<char>) -> TensorType {
    match first_match(a.maps, 0, name) {
        Some(t) => t,
        None => a.default_ty,
    }
}

/// Row widths that a type can store are multiples of this.
pub open spec fn width_unit(t: TensorType) -> nat {
    match t {
        TensorType::Q2K
        | TensorType::Q3K
        | TensorType::Q4K
        | TensorType::Q5K
        | TensorType::Q6K
        | TensorType::IQ2XXS => 256,
        TensorType::Q8_0 => 32,
        _ => 1,
    }
}

/// The type that is stored where another one is asked for: the one asked for where the row width
/// suits it, else 8-bit blocks, else half precision.
pub open spec fn fitted_type(want: TensorType, row: nat) -> TensorType {
    if row % width_unit(want) == 0 {
        want
    } else if row % 32 == 0 {
        TensorType::Q8_0
    } else {
        TensorType::F16
    }
}

/// The type that a tensor gets. One-dimensional tensors stay in single precision.
pub open spec fn picked_type(a: ArgsView, name: Seq<char>, dims: Seq<u64>) -> TensorType {
    if dims.len() < 2 {
        TensorType::F32
    } else {
        fitted_type(wanted_type(a, name), dims[0] as nat)
    }
}

impl Args {
    /// The type asked for a tensor.
    pub fn wanted(&self, name: &str) -> (r: TensorType)
        ensures
            r == wanted_type(self@, name@),
    {
        let ghost ms = rule_views(self.maps@);
        let mut k: usize = 0;
        while k < self.maps.len()
            invariant
                k <= self.maps@.len(),
                ms == rule_views(self.maps@),
                first_match(ms, 0, name@) == first_match(ms, k as int, name@),
            decreases self.maps@.len() - k,
        {
            assert(ms[k as int].pattern == self.maps@[k as int].pattern@);
            if contains(name, self.maps[k].pattern.as_str()) {
                return self.maps[k].ty;
            }
            k = k + 1;
        }
        self.default_ty
    }

    /// The type that a tensor gets.
    pub fn pick(&self, name: &str, dims: &[u64]) -> (r: TensorType)
        ensures
            r == picked_type(self@, name@, dims@),
    {
        if dims.len() < 2 {
            TensorType::F32
        } else {
            fit(self.wanted(name), dims[0])
        }
    }
}

/// The type that is stored where another one is asked for.
pub fn fit(want: TensorType, row: u64) -> (r: TensorType)
    ensures
        r == fitted_type(want, row as nat),
{
    let ok: bool = match want {
        TensorType::Q2K
        | TensorType::Q3K
        | TensorType::Q4K
        | TensorType::Q5K
        | TensorType::Q6K
        | TensorType::IQ2XXS => row % 256 == 0,
        TensorType::Q8_0 => row % 32 == 0,
        _ => true,
    };
    if ok {
        want
    } else if row % 32 == 0 {
        TensorType::Q8_0
    } else {
        TensorType::F16
    }
}

/// A stored type divides the row width evenly, whatever was asked for.
pub proof fn law_fit_divides(want: TensorType, row: nat)
    ensures
        row % width_unit(fitted_type(want, row)) == 0,
        fitted_type(fitted_type(want, row), row) == fitted_type(want, row),
{
}

/// Rules are tried in order: those behind the first match do not matter.
pub proof fn law_first_rule_wins(maps: Seq<RuleView>, more: Seq<RuleView>, k: int, name: Seq<char>)
    requires
        0 <= k,
        first_match(maps, k, name) is Some,
    ensures
        first_match(maps + more, k, name) == first_match(maps, k, name),
    decreases maps.len() - k,
{
    let all = maps + more;
    if k < maps.len() {
        assert(all[k] == maps[k]);
        if !words::within(name, maps[k].pattern) {
            law_first_rule_wins(maps, more, k + 1, name);
        }
    }
}

/// Whether `n` weights serve a tensor with rows of `row` elements and `experts` slices: one weight
/// per element of a row, for all slices or for each.
pub open spec fn weights_serve(n: nat, row: nat, experts: nat) -> bool {
    n == row || n == row * experts
}

/// The type that a tensor gets once its weights are known: two-bit codebook blocks need them, and
/// `Q2_K` stands in where they are missing.
pub open spec fn final_type(picked: TensorType, dims: Seq<u64>, weights: Option<nat>) -> TensorType {
    if picked == TensorType::IQ2XXS && !(weights matches Some(n) && weights_serve(
        n,
        dims[0] as nat,
        if dims.len() > 2 {
            dims[2] as nat
        } else {
            1
        },
    )) {
        TensorType::Q2K
    } else {
        picked
    }
}

/// The type that a tensor gets once its weights are known.
pub fn settle(picked: TensorType, dims: &[u64], weights: Option<usize>) -> (r: TensorType)
    requires
        dims@.len() >= 2 || picked != TensorType::IQ2XXS,
        dims@.len() > 2 ==> dims@[0] * dims@[2] <= u64::MAX,
    ensures
        r == final_type(
            picked,
            dims@,
            match weights {
                Some(n) => Some(n as nat),
                None => None,
            },
        ),
{
    if picked != TensorType::IQ2XXS {
        return picked;
    }
    let row: u64 = dims[0];
    let experts: u64 = if dims.len() > 2 {
        dims[2]
    } else {
        1
    };
    let all: u64 = row * experts;
    match weights {
        Some(n) => if n as u64 == row || n as u64 == all {
            picked
        } else {
            TensorType::Q2K
        },
        None => TensorType::Q2K,
    }
}

/// The complaint about a source tensor that holds no floating-point numbers.
pub open spec fn source_text(name: Seq<char>, ty: TensorType) -> Seq<char> {
    name + ": source type "@ + tensor::type_text(ty) + " is not a float type"@
}

/// The types that a rewrite can read.
pub open spec fn is_float(ty: TensorType) -> bool {
    ty == TensorType::F32 || ty == TensorType::F16 || ty == TensorType::BF16
}

/// Accepts a source tensor of a floating-point type.
pub fn check_source(name: &str, ty: TensorType) -> (r: Result<(), String>)
    ensures
        r is Ok <==> is_float(ty),
        r matches Err(e) ==> e@ == source_text(name@, ty),
{
    match ty {
        TensorType::F32 | TensorType::F16 | TensorType::BF16 => Ok(()),
        _ => {
            let mut m = concat(name, ": source type ");
            push_str(&mut m, ty.name().as_str());
            push_str(&mut m, " is not a float type");
            assert(m@ =~= source_text(name@, ty));
            Err(m)
        },
    }
}

} // verus!
