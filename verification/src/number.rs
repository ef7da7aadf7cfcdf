//! Narrowing a numeric literal to the width a target asks for.

use crate::decoded::{Decoded, Out};
use crate::error::{Error, Fault};
use crate::model::number_literal;
use crate::parse::{is_integer, parse_integer};
use crate::shape::{Capabilities, IntWidth};
use crate::value::Number;
use vstd::prelude::*;

verus! {

impl IntWidth {
    /// Whether the width has 128 bits.
    pub fn wide(self) -> (r: bool)
        ensures
            r == self.is_wide(),
    {
        match self {
            IntWidth::I128 | IntWidth::U128 => true,
            _ => false,
        }
    }

    /// Whether the width admits negative values.
    pub fn signed(self) -> (r: bool)
        ensures
            r == self.is_signed(),
    {
        match self {
            IntWidth::I8 | IntWidth::I16 | IntWidth::I32 | IntWidth::I64 | IntWidth::I128 => true,
            _ => false,
        }
    }

    /// The greatest value of an unsigned width; of a signed one too, which
    /// is then the greatest magnitude on the positive side.
    pub fn greatest(self) -> (r: u128)
        ensures
            r == self.upper(),
    {
        match self {
            IntWidth::I8 => 0x7f,
            IntWidth::I16 => 0x7fff,
            IntWidth::I32 => 0x7fff_ffff,
            IntWidth::I64 => 0x7fff_ffff_ffff_ffff,
            IntWidth::I128 => 0x7fff_ffff_ffff_ffff_ffff_ffff_ffff_ffff,
            IntWidth::U8 => 0xff,
            IntWidth::U16 => 0xffff,
            IntWidth::U32 => 0xffff_ffff,
            IntWidth::U64 => 0xffff_ffff_ffff_ffff,
            IntWidth::U128 => 0xffff_ffff_ffff_ffff_ffff_ffff_ffff_ffff,
        }
    }

    /// The least value of the width.
    pub fn least(self) -> (r: i128)
        ensures
            r == self.lower(),
    {
        match self {
            IntWidth::I8 => -0x80,
            IntWidth::I16 => -0x8000,
            IntWidth::I32 => -0x8000_0000,
            IntWidth::I64 => -0x8000_0000_0000_0000,
            IntWidth::I128 => i128::MIN,
            _ => 0,
        }
    }
}

/// The integer a target of the given width receives for the mathematical
/// value `v`, which lies within the width's range.
pub open spec fn integer_out(v: int, width: IntWidth) -> Out {
    if width.is_signed() {
        Out::Int(v as i128)
    } else {
        Out::UInt(v as u128)
    }
}

impl Number {
    /// The integer that the literal denotes, if it is one.
    pub open spec fn integer(self) -> Option<int> {
        match self {
            Number::PosInt(u) => Some(u as int),
            Number::NegInt(i) => Some(i as int),
            Number::Float(_) => None,
        }
    }

    /// What an integer target of the given width receives for the literal.
    pub open spec fn narrow_model(self, width: IntWidth, caps: Capabilities) -> Result<
        Out,
        Fault,
    > {
        if width.is_wide() && !caps.wide_integers {
            Err(Fault::Unsupported)
        } else {
            match self.integer() {
                None => Err(Fault::NumericLoss),
                Some(v) => if width.lower() <= v <= width.upper() {
                    Ok(integer_out(v, width))
                } else {
                    Err(Fault::NumericRange)
                },
            }
        }
    }

    /// Narrows the literal to an integer of the given width.
    ///
    /// A literal outside the width's range is a range error and a
    /// floating-point literal a loss; a 128-bit width needs the wide-integer
    /// capability.
    pub fn narrow(self, width: IntWidth, caps: Capabilities) -> (r: Result<Decoded<'static>, Error>)
        ensures
            crate::decoded::outcome(r) == self.narrow_model(width, caps),
    {
        if width.wide() && !caps.wide_integers {
            return Err(Error::Unsupported);
        }
        match self {
            Number::Float(_) => Err(Error::NumericLoss),
            Number::PosInt(u) => {
                let v: u128 = u as u128;
                if v <= width.greatest() {
                    if width.signed() {
                        Ok(Decoded::Int(v as i128))
                    } else {
                        Ok(Decoded::UInt(v))
                    }
                } else {
                    Err(Error::NumericRange)
                }
            },
            Number::NegInt(i) => {
                let v: i128 = i as i128;
                if v >= 0 {
                    if v as u128 <= width.greatest() {
                        if width.signed() {
                            Ok(Decoded::Int(v))
                        } else {
                            Ok(Decoded::UInt(v as u128))
                        }
                    } else {
                        Err(Error::NumericRange)
                    }
                } else if width.least() <= v {
                    Ok(Decoded::Int(v))
                } else {
                    Err(Error::NumericRange)
                }
            },
        }
    }
}

impl Number {
    /// Reads the text of a numeric capsule.
    ///
    /// The text must be a decimal integer literal, else the literal cannot
    /// be kept without loss; and the integer must fit 64 bits, else it is
    /// out of range.
    pub fn from_literal(text: &str) -> (r: Result<Number, Error>)
        ensures
            match r {
                Ok(n) => number_literal(text@) == Ok::<Number, Fault>(n),
                Err(e) => number_literal(text@) == Err::<Number, Fault>(e@),
            },
    {
        if !is_integer(text) {
            return Err(Error::NumericLoss);
        }
        match parse_integer(text, IntWidth::U64) {
            Some(Decoded::UInt(v)) => {
                return Ok(Number::PosInt(v as u64));
            },
            _ => {},
        }
        match parse_integer(text, IntWidth::I64) {
            Some(Decoded::Int(v)) => {
                if v >= 0 {
                    Ok(Number::PosInt(v as u64))
                } else {
                    Ok(Number::NegInt(v as i64))
                }
            },
            _ => Err(Error::NumericRange),
        }
    }
}

impl Number {
    /// The literal of a signed integer: negative or not, as its sign says.
    pub fn from_i64(v: i64) -> (n: Number)
        ensures
            n.integer() == Some(v as int),
            n is NegInt <==> v < 0,
            n is PosInt <==> v >= 0,
    {
        if v < 0 {
            Number::NegInt(v)
        } else {
            Number::PosInt(v as u64)
        }
    }

    /// The literal of an unsigned integer.
    pub fn from_u64(v: u64) -> (n: Number)
        ensures
            n == Number::PosInt(v),
    {
        Number::PosInt(v)
    }
}

} // verus!
