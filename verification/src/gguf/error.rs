//! Faults of the header reader.
use vstd::prelude::*;

use crate::text::{push_decimal, push_hex, push_str};

verus! {

#[derive(Debug)]
pub enum Error {
    BadMagic(u32),
    UnsupportedVersion(u32),
    Truncated { at: usize, need: usize, have: usize },
    BadUtf8 { at: usize },
    BadValueType(u32),
    BadTensorType { tensor: String, ty: u32 },
    TooMany { what: &'static str, count: u64 },
}

/// What a fault says.
pub enum Fault {
    BadMagic(u32),
    UnsupportedVersion(u32),
    Truncated { at: usize, need: usize, have: usize },
    BadUtf8 { at: usize },
    BadValueType(u32),
    BadTensorType { tensor: Seq<char>, ty: u32 },
    TooMany { what: Seq<char>, count: u64 },
}

impl View for Error {
    type V = Fault;

    open spec fn view(&self) -> Fault {
        match *self {
            Error::BadMagic(m) => Fault::BadMagic(m),
            Error::UnsupportedVersion(v) => Fault::UnsupportedVersion(v),
            Error::Truncated { at, need, have } => Fault::Truncated { at, need, have },
            Error::BadUtf8 { at } => Fault::BadUtf8 { at },
            Error::BadValueType(t) => Fault::BadValueType(t),
            Error::BadTensorType { tensor, ty } => Fault::BadTensorType { tensor: tensor@, ty },
            Error::TooMany { what, count } => Fault::TooMany { what: what@, count },
        }
    }
}

/// The text shown for a fault.
pub open spec fn fault_text(f: Fault) -> Seq<char> {
    match f {
        Fault::BadMagic(m) => "not a GGUF file (magic 0x"@ + crate::text::hex_digits(m as nat, 8)
            + ")"@,
        Fault::UnsupportedVersion(v) => "unsupported GGUF version "@ + crate::text::decimal(
            v as nat,
        ),
        Fault::Truncated { at, need, have } => "truncated at byte "@ + crate::text::decimal(
            at as nat,
        ) + ": need "@ + crate::text::decimal(need as nat) + ", have "@ + crate::text::decimal(
            have as nat,
        ),
        Fault::BadUtf8 { at } => "invalid utf-8 in string at byte "@ + crate::text::decimal(
            at as nat,
        ),
        Fault::BadValueType(t) => "unknown metadata value type "@ + crate::text::decimal(t as nat),
        Fault::BadTensorType { tensor, ty } => "tensor "@ + tensor + ": unknown ggml type "@
            + crate::text::decimal(ty as nat),
        Fault::TooMany { what, count } => "implausible "@ + what + " count "@
            + crate::text::decimal(count as nat),
    }
}

impl Error {
    /// The text shown for this fault.
    pub fn message(&self) -> (r: String)
        ensures
            r@ == fault_text(self@),
    {
        let mut out = String::new();
        match self {
            Error::BadMagic(m) => {
                push_str(&mut out, "not a GGUF file (magic 0x");
                push_hex(&mut out, *m as u64, 8);
                push_str(&mut out, ")");
            },
            Error::UnsupportedVersion(v) => {
                push_str(&mut out, "unsupported GGUF version ");
                push_decimal(&mut out, *v as u64);
            },
            Error::Truncated { at, need, have } => {
                push_str(&mut out, "truncated at byte ");
                push_decimal(&mut out, *at as u64);
                push_str(&mut out, ": need ");
                push_decimal(&mut out, *need as u64);
                push_str(&mut out, ", have ");
                push_decimal(&mut out, *have as u64);
            },
            Error::BadUtf8 { at } => {
                push_str(&mut out, "invalid utf-8 in string at byte ");
                push_decimal(&mut out, *at as u64);
            },
            Error::BadValueType(t) => {
                push_str(&mut out, "unknown metadata value type ");
                push_decimal(&mut out, *t as u64);
            },
            Error::BadTensorType { tensor, ty } => {
                push_str(&mut out, "tensor ");
                push_str(&mut out, tensor.as_str());
                push_str(&mut out, ": unknown ggml type ");
                push_decimal(&mut out, *ty as u64);
            },
            Error::TooMany { what, count } => {
                push_str(&mut out, "implausible ");
                push_str(&mut out, what);
                push_str(&mut out, " count ");
                push_decimal(&mut out, *count);
            },
        }
        assert(out@ =~= fault_text(self@));
        out
    }
}

} // verus!
