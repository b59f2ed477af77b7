//! Binary encodings of the fields of the target's instructions.
use vstd::prelude::*;
use crate::text::text_eq;

verus! {

pub open spec fn bit_char(b: nat) -> char {
    if b == 0 {
        '0'
    } else {
        '1'
    }
}

/// The low `n` bits of `v`, most significant first.
pub open spec fn binary(v: nat, n: nat) -> Seq<char>
    decreases n,
{
    if n == 0 {
        seq![]
    } else {
        binary(v / 2, (n - 1) as nat).push(bit_char(v % 2))
    }
}

/// The largest value an A-instruction can load.
pub const A_MAX: usize = 32767;

/// The bits of the `dest` field, by its text.
pub open spec fn dest_bits(field: Seq<char>) -> Option<Seq<char>> {
    if field == "null"@ {
        Some(seq!['0', '0', '0'])
    } else if field == "M"@ {
        Some(seq!['0', '0', '1'])
    } else if field == "D"@ {
        Some(seq!['0', '1', '0'])
    } else if field == "MD"@ {
        Some(seq!['0', '1', '1'])
    } else if field == "A"@ {
        Some(seq!['1', '0', '0'])
    } else if field == "AM"@ {
        Some(seq!['1', '0', '1'])
    } else if field == "AD"@ {
        Some(seq!['1', '1', '0'])
    } else if field == "AMD"@ {
        Some(seq!['1', '1', '1'])
    } else {
        None
    }
}

/// The bits of the `jump` field, by its text.
pub open spec fn jump_bits(field: Seq<char>) -> Option<Seq<char>> {
    if field == "null"@ {
        Some(seq!['0', '0', '0'])
    } else if field == "JGT"@ {
        Some(seq!['0', '0', '1'])
    } else if field == "JEQ"@ {
        Some(seq!['0', '1', '0'])
    } else if field == "JGE"@ {
        Some(seq!['0', '1', '1'])
    } else if field == "JLT"@ {
        Some(seq!['1', '0', '0'])
    } else if field == "JNE"@ {
        Some(seq!['1', '0', '1'])
    } else if field == "JLE"@ {
        Some(seq!['1', '1', '0'])
    } else if field == "JMP"@ {
        Some(seq!['1', '1', '1'])
    } else {
        None
    }
}

/// The bits of the `comp` field (the `a` bit and the six ALU bits).
pub open spec fn comp_bits(field: Seq<char>) -> Option<Seq<char>> {
    if field == "0"@ {
        Some(seq!['0', '1', '0', '1', '0', '1', '0'])
    } else if field == "1"@ {
        Some(seq!['0', '1', '1', '1', '1', '1', '1'])
    } else if field == "-1"@ {
        Some(seq!['0', '1', '1', '1', '0', '1', '0'])
    } else if field == "D"@ {
        Some(seq!['0', '0', '0', '1', '1', '0', '0'])
    } else if field == "A"@ {
        Some(seq!['0', '1', '1', '0', '0', '0', '0'])
    } else if field == "M"@ {
        Some(seq!['1', '1', '1', '0', '0', '0', '0'])
    } else if field == "!D"@ {
        Some(seq!['0', '0', '0', '1', '1', '0', '1'])
    } else if field == "!A"@ {
        Some(seq!['0', '1', '1', '0', '0', '0', '1'])
    } else if field == "!M"@ {
        Some(seq!['1', '1', '1', '0', '0', '0', '1'])
    } else if field == "-D"@ {
        Some(seq!['0', '0', '0', '1', '1', '1', '1'])
    } else if field == "-A"@ {
        Some(seq!['0', '1', '1', '0', '0', '1', '1'])
    } else if field == "-M"@ {
        Some(seq!['1', '1', '1', '0', '0', '1', '1'])
    } else if field == "D+1"@ {
        Some(seq!['0', '0', '1', '1', '1', '1', '1'])
    } else if field == "A+1"@ {
        Some(seq!['0', '1', '1', '0', '1', '1', '1'])
    } else if field == "M+1"@ {
        Some(seq!['1', '1', '1', '0', '1', '1', '1'])
    } else if field == "D-1"@ {
        Some(seq!['0', '0', '0', '1', '1', '1', '0'])
    } else if field == "A-1"@ {
        Some(seq!['0', '1', '1', '0', '0', '1', '0'])
    } else if field == "M-1"@ {
        Some(seq!['1', '1', '1', '0', '0', '1', '0'])
    } else if field == "D+A"@ {
        Some(seq!['0', '0', '0', '0', '0', '1', '0'])
    } else if field == "D+M"@ {
        Some(seq!['1', '0', '0', '0', '0', '1', '0'])
    } else if field == "D-A"@ {
        Some(seq!['0', '0', '1', '0', '0', '1', '1'])
    } else if field == "D-M"@ {
        Some(seq!['1', '0', '1', '0', '0', '1', '1'])
    } else if field == "A-D"@ {
        Some(seq!['0', '0', '0', '0', '1', '1', '1'])
    } else if field == "M-D"@ {
        Some(seq!['1', '0', '0', '0', '1', '1', '1'])
    } else if field == "D&A"@ {
        Some(seq!['0', '0', '0', '0', '0', '0', '0'])
    } else if field == "D&M"@ {
        Some(seq!['1', '0', '0', '0', '0', '0', '0'])
    } else if field == "D|A"@ {
        Some(seq!['0', '0', '1', '0', '1', '0', '1'])
    } else if field == "D|M"@ {
        Some(seq!['1', '0', '1', '0', '1', '0', '1'])
    } else {
        None
    }
}

pub struct SimpleAssembler;

/// The low `n` bits of `v`, most significant first.
fn bits(v: usize, n: usize) -> (r: Vec<char>)
    ensures
        r@ == binary(v as nat, n as nat),
        r@.len() == n,
    decreases n,
{
    if n == 0 {
        Vec::new()
    } else {
        let mut r = bits(v / 2, n - 1);
        r.push(if v % 2 == 0 {
            '0'
        } else {
            '1'
        });
        r
    }
}

impl SimpleAssembler {
    /// The A-instruction that loads `value`: a 0 and the value in 15 bits.
    pub fn a_instruction(value: usize) -> (r: Result<[char; 16], String>)
        ensures
            value > A_MAX <==> r is Err,
            r matches Ok(w) ==> w@ == binary(value as nat, 16),
            r matches Err(m) ==> m@ == "Overflow A-Instruction value"@,
    {
        if value > A_MAX {
            return Err(String::from_str("Overflow A-Instruction value"));
        }
        let b = bits(value, 16);
        let mut w = ['0'; 16];
        let mut i: usize = 0;
        while i < 16
            invariant
                b@.len() == 16,
                0 <= i <= 16,
                forall|j: int| 0 <= j < i ==> w@[j] == b@[j],
            decreases 16 - i,
        {
            w[i] = b[i];
            i = i + 1;
        }
        assert(w@ =~= b@);
        Ok(w)
    }

    pub fn dest(field: &str) -> (r: Result<[char; 3], String>)
        ensures
            r matches Ok(w) ==> dest_bits(field@) == Some(w@),
            r matches Err(m) ==> dest_bits(field@) is None && m@ == "Invalid dest field"@,
    {
        let r = if text_eq(field, "null") {
            ['0', '0', '0']
        } else if text_eq(field, "M") {
            ['0', '0', '1']
        } else if text_eq(field, "D") {
            ['0', '1', '0']
        } else if text_eq(field, "MD") {
            ['0', '1', '1']
        } else if text_eq(field, "A") {
            ['1', '0', '0']
        } else if text_eq(field, "AM") {
            ['1', '0', '1']
        } else if text_eq(field, "AD") {
            ['1', '1', '0']
        } else if text_eq(field, "AMD") {
            ['1', '1', '1']
        } else {
            return Err(String::from_str("Invalid dest field"));
        };
        assert(dest_bits(field@) == Some(r@)) by {
            assert(r@ =~= dest_bits(field@)->0);
        }
        Ok(r)
    }

    pub fn jump(field: &str) -> (r: Result<[char; 3], String>)
        ensures
            r matches Ok(w) ==> jump_bits(field@) == Some(w@),
            r matches Err(m) ==> jump_bits(field@) is None && m@ == "Invalid jump field"@,
    {
        let r = if text_eq(field, "null") {
            ['0', '0', '0']
        } else if text_eq(field, "JGT") {
            ['0', '0', '1']
        } else if text_eq(field, "JEQ") {
            ['0', '1', '0']
        } else if text_eq(field, "JGE") {
            ['0', '1', '1']
        } else if text_eq(field, "JLT") {
            ['1', '0', '0']
        } else if text_eq(field, "JNE") {
            ['1', '0', '1']
        } else if text_eq(field, "JLE") {
            ['1', '1', '0']
        } else if text_eq(field, "JMP") {
            ['1', '1', '1']
        } else {
            return Err(String::from_str("Invalid jump field"));
        };
        assert(jump_bits(field@) == Some(r@)) by {
            assert(r@ =~= jump_bits(field@)->0);
        }
        Ok(r)
    }

    pub fn comp(field: &str) -> (r: Result<[char; 7], String>)
        ensures
            r matches Ok(w) ==> comp_bits(field@) == Some(w@),
            r matches Err(m) ==> comp_bits(field@) is None && m@ == "Invalid comp field"@,
    {
        let r = if text_eq(field, "0") {
            ['0', '1', '0', '1', '0', '1', '0']
        } else if text_eq(field, "1") {
            ['0', '1', '1', '1', '1', '1', '1']
        } else if text_eq(field, "-1") {
            ['0', '1', '1', '1', '0', '1', '0']
        } else if text_eq(field, "D") {
            ['0', '0', '0', '1', '1', '0', '0']
        } else if text_eq(field, "A") {
            ['0', '1', '1', '0', '0', '0', '0']
        } else if text_eq(field, "M") {
            ['1', '1', '1', '0', '0', '0', '0']
        } else if text_eq(field, "!D") {
            ['0', '0', '0', '1', '1', '0', '1']
        } else if text_eq(field, "!A") {
            ['0', '1', '1', '0', '0', '0', '1']
        } else if text_eq(field, "!M") {
            ['1', '1', '1', '0', '0', '0', '1']
        } else if text_eq(field, "-D") {
            ['0', '0', '0', '1', '1', '1', '1']
        } else if text_eq(field, "-A") {
            ['0', '1', '1', '0', '0', '1', '1']
        } else if text_eq(field, "-M") {
            ['1', '1', '1', '0', '0', '1', '1']
        } else if text_eq(field, "D+1") {
            ['0', '0', '1', '1', '1', '1', '1']
        } else if text_eq(field, "A+1") {
            ['0', '1', '1', '0', '1', '1', '1']
        } else if text_eq(field, "M+1") {
            ['1', '1', '1', '0', '1', '1', '1']
        } else if text_eq(field, "D-1") {
            ['0', '0', '0', '1', '1', '1', '0']
        } else if text_eq(field, "A-1") {
            ['0', '1', '1', '0', '0', '1', '0']
        } else if text_eq(field, "M-1") {
            ['1', '1', '1', '0', '0', '1', '0']
        } else if text_eq(field, "D+A") {
            ['0', '0', '0', '0', '0', '1', '0']
        } else if text_eq(field, "D+M") {
            ['1', '0', '0', '0', '0', '1', '0']
        } else if text_eq(field, "D-A") {
            ['0', '0', '1', '0', '0', '1', '1']
        } else if text_eq(field, "D-M") {
            ['1', '0', '1', '0', '0', '1', '1']
        } else if text_eq(field, "A-D") {
            ['0', '0', '0', '0', '1', '1', '1']
        } else if text_eq(field, "M-D") {
            ['1', '0', '0', '0', '1', '1', '1']
        } else if text_eq(field, "D&A") {
            ['0', '0', '0', '0', '0', '0', '0']
        } else if text_eq(field, "D&M") {
            ['1', '0', '0', '0', '0', '0', '0']
        } else if text_eq(field, "D|A") {
            ['0', '0', '1', '0', '1', '0', '1']
        } else if text_eq(field, "D|M") {
            ['1', '0', '1', '0', '1', '0', '1']
        } else {
            return Err(String::from_str("Invalid comp field"));
        };
        assert(comp_bits(field@) == Some(r@)) by {
            assert(r@ =~= comp_bits(field@)->0);
        }
        Ok(r)
    }
}

} // verus!
