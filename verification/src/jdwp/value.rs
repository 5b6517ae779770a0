//! Values of local variables.

use vstd::prelude::*;
use crate::jdwp::read::{
    get_id, get_u16, get_u32, get_u64, get_u8, read_id, read_u16, read_u32, read_u64, read_u8, Item,
    JdwpError,
};
use crate::number::{
    append_digits, decimal, decimal_text, digits, hex, hex_text, signed_decimal, signed_text,
    twos_complement,
};
use crate::text::append;

verus! {

// The letters by which a type is tagged.
pub const TAG_BYTE: u8 = 0x42;

pub const TAG_CHAR: u8 = 0x43;

pub const TAG_DOUBLE: u8 = 0x44;

pub const TAG_FLOAT: u8 = 0x46;

pub const TAG_INT: u8 = 0x49;

pub const TAG_LONG: u8 = 0x4a;

pub const TAG_SHORT: u8 = 0x53;

pub const TAG_VOID: u8 = 0x56;

pub const TAG_BOOLEAN: u8 = 0x5a;

pub const TAG_ARRAY: u8 = 0x5b;

pub const TAG_OBJECT: u8 = 0x4c;

pub const TAG_STRING: u8 = 0x73;

/// A value of the JVM. A floating-point number is held as its bits.
#[derive(Debug, Clone, Copy, PartialEq, Eq, Structural)]
pub enum JvmValue {
    Byte(u8),
    Char(u16),
    Double(u64),
    Float(u32),
    Int(u32),
    Long(u64),
    Short(u16),
    Boolean(bool),
    Object { tag: u8, id: u64 },
    Void,
}

/// The bits of a floating-point number.
#[derive(Debug, Clone, Copy, PartialEq, Eq, Structural)]
pub enum Real {
    Double(u64),
    Float(u32),
}

/// `char::from_u32` gives the character of a Unicode scalar value, and `None` for a number
/// that is none: a surrogate, or a number above `10FFFF`.
pub assume_specification[ char::from_u32 ](i: u32) -> (r: Option<char>)
    ensures
        r is Some <==> (i <= 0xD7FF || 0xE000 <= i <= 0x10FFFF),
        r matches Some(c) ==> c == i as char,
;

/// Whether a UTF-16 code unit is half of a pair, and no character.
pub open spec fn is_surrogate(v: u16) -> bool {
    0xD800 <= v <= 0xDFFF
}

impl JvmValue {
    /// How the value is shown; of a floating-point number, the bits to be shown.
    pub open spec fn shown(self) -> Result<Seq<char>, Real> {
        match self {
            JvmValue::Byte(v) => Ok(decimal(v as nat)),
            JvmValue::Char(v) => if is_surrogate(v) {
                Ok("'\\u"@ + digits(v as nat, 16) + "'"@)
            } else {
                Ok(seq!['\'', v as char, '\''])
            },
            JvmValue::Double(bits) => Err(Real::Double(bits)),
            JvmValue::Float(bits) => Err(Real::Float(bits)),
            JvmValue::Int(v) => Ok(signed_decimal(twos_complement(v as int, 0x8000_0000))),
            JvmValue::Long(v) => Ok(signed_decimal(twos_complement(v as int, 0x8000_0000_0000_0000))),
            JvmValue::Short(v) => Ok(signed_decimal(twos_complement(v as int, 0x8000))),
            JvmValue::Boolean(v) => if v {
                Ok("true"@)
            } else {
                Ok("false"@)
            },
            JvmValue::Object { tag, id } => Ok("@"@ + hex(id as nat)),
            JvmValue::Void => Ok("void"@),
        }
    }

    /// The value as text. The text of a floating-point number is left to the caller, who gets
    /// its bits.
    pub fn display(&self) -> (r: Result<String, Real>)
        ensures
            match self.shown() {
                Ok(t) => r matches Ok(s) && s@ == t,
                Err(bits) => r == Err::<String, Real>(bits),
            },
    {
        let mut s: String = String::new();
        match *self {
            JvmValue::Byte(v) => {
                return Ok(decimal_text(v as u64));
            },
            JvmValue::Char(v) => match char::from_u32(v as u32) {
                Some(c) => {
                    s.push('\'');
                    s.push(c);
                    s.push('\'');
                    assert(s@ =~= seq!['\'', v as char, '\'']);
                },
                None => {
                    append(&mut s, "'\\u");
                    append_digits(&mut s, v as u64, 16);
                    append(&mut s, "'");
                },
            },
            JvmValue::Double(bits) => {
                return Err(Real::Double(bits));
            },
            JvmValue::Float(bits) => {
                return Err(Real::Float(bits));
            },
            JvmValue::Int(v) => {
                return Ok(signed_text(v as u64, 0x8000_0000));
            },
            JvmValue::Long(v) => {
                return Ok(signed_text(v, 0x8000_0000_0000_0000));
            },
            JvmValue::Short(v) => {
                return Ok(signed_text(v as u64, 0x8000));
            },
            JvmValue::Boolean(v) => {
                if v {
                    append(&mut s, "true");
                } else {
                    append(&mut s, "false");
                }
            },
            JvmValue::Object { tag: _, id } => {
                append(&mut s, "@");
                append(&mut s, hex_text(id).as_str());
            },
            JvmValue::Void => {
                append(&mut s, "void");
            },
        }
        assert(s@ =~= self.shown()->Ok_0);
        Ok(s)
    }
}

impl View for JvmValue {
    type V = JvmValue;

    open spec fn view(&self) -> JvmValue {
        *self
    }
}

impl Item for JvmValue {
    /// A tag byte that says what follows. Every tag that names no primitive type is followed by
    /// an object number.
    open spec fn get(d: Seq<u8>, p: int) -> Result<(JvmValue, int), JdwpError> {
        match get_u8(d, p) {
            Err(e) => Err(e),
            Ok((tag, p)) => if tag == TAG_BYTE {
                match get_u8(d, p) {
                    Err(e) => Err(e),
                    Ok((v, p)) => Ok((JvmValue::Byte(v), p)),
                }
            } else if tag == TAG_CHAR {
                match get_u16(d, p) {
                    Err(e) => Err(e),
                    Ok((v, p)) => Ok((JvmValue::Char(v), p)),
                }
            } else if tag == TAG_DOUBLE {
                match get_u64(d, p) {
                    Err(e) => Err(e),
                    Ok((v, p)) => Ok((JvmValue::Double(v), p)),
                }
            } else if tag == TAG_FLOAT {
                match get_u32(d, p) {
                    Err(e) => Err(e),
                    Ok((v, p)) => Ok((JvmValue::Float(v), p)),
                }
            } else if tag == TAG_INT {
                match get_u32(d, p) {
                    Err(e) => Err(e),
                    Ok((v, p)) => Ok((JvmValue::Int(v), p)),
                }
            } else if tag == TAG_LONG {
                match get_u64(d, p) {
                    Err(e) => Err(e),
                    Ok((v, p)) => Ok((JvmValue::Long(v), p)),
                }
            } else if tag == TAG_SHORT {
                match get_u16(d, p) {
                    Err(e) => Err(e),
                    Ok((v, p)) => Ok((JvmValue::Short(v), p)),
                }
            } else if tag == TAG_VOID {
                Ok((JvmValue::Void, p))
            } else if tag == TAG_BOOLEAN {
                match get_u8(d, p) {
                    Err(e) => Err(e),
                    Ok((v, p)) => Ok((JvmValue::Boolean(v != 0), p)),
                }
            } else {
                match get_id(d, p) {
                    Err(e) => Err(e),
                    Ok((id, p)) => Ok((JvmValue::Object { tag, id }, p)),
                }
            },
        }
    }

    fn read(data: &[u8], pos: &mut usize) -> (r: Result<JvmValue, JdwpError>) {
        let tag = read_u8(data, pos)?;
        if tag == TAG_BYTE {
            Ok(JvmValue::Byte(read_u8(data, pos)?))
        } else if tag == TAG_CHAR {
            Ok(JvmValue::Char(read_u16(data, pos)?))
        } else if tag == TAG_DOUBLE {
            Ok(JvmValue::Double(read_u64(data, pos)?))
        } else if tag == TAG_FLOAT {
            Ok(JvmValue::Float(read_u32(data, pos)?))
        } else if tag == TAG_INT {
            Ok(JvmValue::Int(read_u32(data, pos)?))
        } else if tag == TAG_LONG {
            Ok(JvmValue::Long(read_u64(data, pos)?))
        } else if tag == TAG_SHORT {
            Ok(JvmValue::Short(read_u16(data, pos)?))
        } else if tag == TAG_VOID {
            Ok(JvmValue::Void)
        } else if tag == TAG_BOOLEAN {
            Ok(JvmValue::Boolean(read_u8(data, pos)? != 0))
        } else {
            Ok(JvmValue::Object { tag, id: read_id(data, pos)? })
        }
    }
}

/// A number shows as its decimal text, with a minus sign where it is below zero; a number with a
/// sign is the one of its width that its bits stand for.
pub proof fn law_whole_numbers_show_as_decimals(n: int)
    ensures
        0 <= n < 0x100 ==> JvmValue::Byte(n as u8).shown() == Ok::<Seq<char>, Real>(
            digits(n as nat, 10),
        ),
        0 <= n < 0x8000 ==> JvmValue::Short(n as u16).shown() == Ok::<Seq<char>, Real>(
            digits(n as nat, 10),
        ),
        0 < n <= 0x8000 ==> JvmValue::Short((0x1_0000 - n) as u16).shown() == Ok::<Seq<char>, Real>(
            seq!['-'] + digits(n as nat, 10),
        ),
        0 <= n < 0x8000_0000 ==> JvmValue::Int(n as u32).shown() == Ok::<Seq<char>, Real>(
            digits(n as nat, 10),
        ),
        0 < n <= 0x8000_0000 ==> JvmValue::Int((0x1_0000_0000 - n) as u32).shown() == Ok::<
            Seq<char>,
            Real,
        >(seq!['-'] + digits(n as nat, 10)),
        0 <= n < 0x8000_0000_0000_0000 ==> JvmValue::Long(n as u64).shown() == Ok::<
            Seq<char>,
            Real,
        >(digits(n as nat, 10)),
        0 < n <= 0x8000_0000_0000_0000 ==> JvmValue::Long(
            (0x1_0000_0000_0000_0000 - n) as u64,
        ).shown() == Ok::<Seq<char>, Real>(seq!['-'] + digits(n as nat, 10)),
{
}

/// A character shows between quotes, half of a pair by its number; truth values and the missing
/// value by their words; an object by its number; and of a floating-point number its own bits are
/// given.
pub proof fn law_other_values_show(c: u16, tag: u8, id: u64, bits: u64, half: u32)
    ensures
        c < 0xd800 || c > 0xdfff ==> JvmValue::Char(c).shown() == Ok::<Seq<char>, Real>(
            seq!['\'', c as char, '\''],
        ),
        0xd800 <= c <= 0xdfff ==> JvmValue::Char(c).shown() == Ok::<Seq<char>, Real>(
            seq!['\'', '\\', 'u'] + digits(c as nat, 16) + seq!['\''],
        ),
        JvmValue::Boolean(true).shown() == Ok::<Seq<char>, Real>(seq!['t', 'r', 'u', 'e']),
        JvmValue::Boolean(false).shown() == Ok::<Seq<char>, Real>(seq!['f', 'a', 'l', 's', 'e']),
        JvmValue::Void.shown() == Ok::<Seq<char>, Real>(seq!['v', 'o', 'i', 'd']),
        (JvmValue::Object { tag, id }).shown() == Ok::<Seq<char>, Real>(
            seq!['@', '0', 'x'] + digits(id as nat, 16),
        ),
        JvmValue::Double(bits).shown() == Err::<Seq<char>, Real>(Real::Double(bits)),
        JvmValue::Float(half).shown() == Err::<Seq<char>, Real>(Real::Float(half)),
{
    reveal_strlit("'\\u");
    reveal_strlit("'");
    reveal_strlit("true");
    reveal_strlit("false");
    reveal_strlit("void");
    reveal_strlit("@");
    assert("'\\u"@ =~= seq!['\'', '\\', 'u']);
    assert("'"@ =~= seq!['\'']);
    assert("true"@ =~= seq!['t', 'r', 'u', 'e']);
    assert("false"@ =~= seq!['f', 'a', 'l', 's', 'e']);
    assert("void"@ =~= seq!['v', 'o', 'i', 'd']);
    assert("@"@ =~= seq!['@']);
    crate::number::law_number_texts(id as nat);
    let h = hex(id as nat);
    assert(h =~= seq!['0', 'x'] + h.skip(2));
    assert(seq!['@'] + h =~= seq!['@', '0', 'x'] + digits(id as nat, 16));
}

} // verus!
