//! The eight addressing classes of the stack machine and how each maps onto
//! the target's registers.
use vstd::prelude::*;
use crate::text::text_eq;

verus! {

#[derive(Debug, Clone, Copy, PartialEq, Eq, Structural)]
pub enum MemorySegments {
    Local,
    Argument,
    This,
    That,
    Pointer,
    Temp,
    Constant,
    Static,
}

/// The word that names a segment in the stack-machine language.
pub open spec fn segment_token(s: MemorySegments) -> Seq<char> {
    match s {
        MemorySegments::Local => "local"@,
        MemorySegments::Argument => "argument"@,
        MemorySegments::This => "this"@,
        MemorySegments::That => "that"@,
        MemorySegments::Pointer => "pointer"@,
        MemorySegments::Temp => "temp"@,
        MemorySegments::Constant => "constant"@,
        MemorySegments::Static => "static"@,
    }
}

/// Segments reached through a base-pointer register plus an index.
pub open spec fn is_indirect(s: MemorySegments) -> bool {
    s is Local || s is Argument || s is This || s is That
}

/// The base register of an indirect segment.
pub open spec fn segment_base(s: MemorySegments) -> Seq<char> {
    match s {
        MemorySegments::Local => "LCL"@,
        MemorySegments::Argument => "ARG"@,
        MemorySegments::This => "THIS"@,
        _ => "THAT"@,
    }
}

/// The register that `pointer i` names, for `i` in {0, 1}.
pub open spec fn pointer_register(i: nat) -> Seq<char> {
    if i == 0 {
        "THIS"@
    } else {
        "THAT"@
    }
}

pub proof fn lemma_segment_tokens_distinct()
    ensures
        forall|a: MemorySegments, b: MemorySegments|
            segment_token(a) == segment_token(b) ==> a == b,
{
    reveal_strlit("local");
    reveal_strlit("argument");
    reveal_strlit("this");
    reveal_strlit("that");
    reveal_strlit("pointer");
    reveal_strlit("temp");
    reveal_strlit("constant");
    reveal_strlit("static");
    assert forall|a: MemorySegments, b: MemorySegments|
        segment_token(a) == segment_token(b) implies a == b by {
        if a != b {
            let (x, y) = (segment_token(a), segment_token(b));
            assert(x.len() != y.len() || x[0] != y[0] || x[1] != y[1] || x[2] != y[2]);
        }
    }
}

impl MemorySegments {
    /// The segment that `token` names.
    pub fn from_token(token: &str) -> (r: Result<Self, String>)
        ensures
            r matches Ok(s) ==> segment_token(s) == token@,
            r matches Err(e) ==> e@ == "Unknown Memory Segment"@,
            r is Err ==> forall|s: MemorySegments| segment_token(s) != token@,
    {
        proof {
            lemma_segment_tokens_distinct();
        }
        if text_eq(token, "local") {
            Ok(MemorySegments::Local)
        } else if text_eq(token, "argument") {
            Ok(MemorySegments::Argument)
        } else if text_eq(token, "this") {
            Ok(MemorySegments::This)
        } else if text_eq(token, "that") {
            Ok(MemorySegments::That)
        } else if text_eq(token, "pointer") {
            Ok(MemorySegments::Pointer)
        } else if text_eq(token, "temp") {
            Ok(MemorySegments::Temp)
        } else if text_eq(token, "constant") {
            Ok(MemorySegments::Constant)
        } else if text_eq(token, "static") {
            Ok(MemorySegments::Static)
        } else {
            proof {
                assert forall|s: MemorySegments| segment_token(s) != token@ by {
                    match s {
                        MemorySegments::Local => {},
                        MemorySegments::Argument => {},
                        MemorySegments::This => {},
                        MemorySegments::That => {},
                        MemorySegments::Pointer => {},
                        MemorySegments::Temp => {},
                        MemorySegments::Constant => {},
                        MemorySegments::Static => {},
                    }
                }
            }
            Err(String::from_str("Unknown Memory Segment"))
        }
    }

    /// The word that names this segment.
    pub fn to_token(&self) -> (r: &'static str)
        ensures
            r@ == segment_token(*self),
    {
        match self {
            MemorySegments::Local => "local",
            MemorySegments::Argument => "argument",
            MemorySegments::This => "this",
            MemorySegments::That => "that",
            MemorySegments::Pointer => "pointer",
            MemorySegments::Temp => "temp",
            MemorySegments::Constant => "constant",
            MemorySegments::Static => "static",
        }
    }

    /// The base register of an indirect segment.
    pub fn to_asm(&self) -> (r: &'static str)
        requires
            is_indirect(*self),
        ensures
            r@ == segment_base(*self),
    {
        match self {
            MemorySegments::Local => "LCL",
            MemorySegments::Argument => "ARG",
            MemorySegments::This => "THIS",
            _ => "THAT",
        }
    }
}

} // verus!
