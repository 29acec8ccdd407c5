use crate::parsers::text::{str_chars, string_from_chars};
use crate::virtual_machine::{VMInputRequestType, VMInputResponse};
use vstd::prelude::*;

verus! {

/// Why a line typed for a waiting machine is not an input of the kind asked
/// for.
#[derive(Debug, Clone, Copy, PartialEq, Eq, Structural)]
pub enum InputLineError {
    InvalidNumber,
    NotOneAsciiChar,
    NotAscii,
}

/// `s` without its line feeds.
pub open spec fn without_newlines(s: Seq<char>) -> Seq<char>
    decreases s.len(),
{
    if s.len() == 0 {
        s
    } else if s.last() == '\n' {
        without_newlines(s.drop_last())
    } else {
        without_newlines(s.drop_last()).push(s.last())
    }
}

/// An ASCII decimal digit.
pub open spec fn is_digit(c: char) -> bool {
    '0' <= c <= '9'
}

/// The value of the decimal digits `d`.
pub open spec fn digits_value(d: Seq<char>) -> int
    decreases d.len(),
{
    if d.len() == 0 {
        0
    } else {
        digits_value(d.drop_last()) * 10 + ((d.last() as u32) - 48)
    }
}

/// The integer that `s` writes in decimal, with an optional `+` or `-` sign
/// and at least one digit, when it fits in an `isize`.
pub open spec fn isize_text(s: Seq<char>) -> Option<int> {
    let signed = s.len() > 0 && (s[0] == '+' || s[0] == '-');
    let body = if signed {
        s.drop_first()
    } else {
        s
    };
    let v = if signed && s[0] == '-' {
        -digits_value(body)
    } else {
        digits_value(body)
    };
    if body.len() > 0 && (forall|i: int| 0 <= i < body.len() ==> is_digit(#[trigger] body[i])) && isize::MIN <= v
        <= isize::MAX {
        Some(v)
    } else {
        None
    }
}

/// Every character of `s` is ASCII.
pub open spec fn all_ascii(s: Seq<char>) -> bool {
    forall|i: int| 0 <= i < s.len() ==> (#[trigger] s[i] as u32) < 128
}

/// `str::parse::<isize>`: an optional `+` or `-` sign followed by decimal
/// digits only, whose value fits in an `isize`; anything else is refused.
#[verifier::external_body]
fn parse_isize(s: &str) -> (r: Option<isize>)
    ensures
        match isize_text(s@) {
            Some(v) => r == Some(v as isize),
            None => r is None,
        },
{
    s.parse::<isize>().ok()
}

impl InputLineError {
    /// The message shown for the error.
    pub fn message(&self) -> (r: &'static str)
        ensures
            r@ == (match *self {
                InputLineError::InvalidNumber => "Número inválido"@,
                InputLineError::NotOneAsciiChar => "Deve haver apenas um caractere ASCII"@,
                InputLineError::NotAscii => "Todos os carateres precisam ser do padrão ASCII"@,
            }),
    {
        match self {
            InputLineError::InvalidNumber => "Número inválido",
            InputLineError::NotOneAsciiChar => "Deve haver apenas um caractere ASCII",
            InputLineError::NotAscii => "Todos os carateres precisam ser do padrão ASCII",
        }
    }
}

/// The characters of `chars` but the line feeds.
fn drop_newlines(chars: &Vec<char>) -> (r: Vec<char>)
    ensures
        r@ == without_newlines(chars@),
{
    let mut r: Vec<char> = Vec::new();
    let mut i: usize = 0;
    while i < chars.len()
        invariant
            i <= chars@.len(),
            r@ == without_newlines(chars@.take(i as int)),
        decreases chars.len() - i,
    {
        proof {
            assert(chars@.take(i + 1).drop_last() =~= chars@.take(i as int));
        }
        if chars[i] != '\n' {
            r.push(chars[i]);
        }
        i = i + 1;
    }
    proof {
        assert(chars@.take(i as int) =~= chars@);
    }
    r
}

/// The input of kind `request` that the line `line` gives, line feeds left
/// out: a decimal integer (`isize_text`), exactly one ASCII character, or a
/// text of ASCII characters.
pub fn input_from_line(request: VMInputRequestType, line: &str) -> (r: Result<VMInputResponse, InputLineError>)
    ensures
        ({
            let t = without_newlines(line@);
            match request {
                VMInputRequestType::Int => match isize_text(t) {
                    Some(v) => r matches Ok(VMInputResponse::Int(n)) && n == v,
                    None => r matches Err(InputLineError::InvalidNumber),
                },
                VMInputRequestType::Char => if t.len() == 1 && (t[0] as u32) < 128 {
                    r matches Ok(VMInputResponse::Char(c)) && c == t[0]
                } else {
                    r matches Err(InputLineError::NotOneAsciiChar)
                },
                VMInputRequestType::String => if all_ascii(t) {
                    r matches Ok(VMInputResponse::String(x)) && x@ == t
                } else {
                    r matches Err(InputLineError::NotAscii)
                },
            }
        }),
{
    let chars = str_chars(line);
    let t = drop_newlines(&chars);
    match request {
        VMInputRequestType::Int => {
            let text = string_from_chars(t.as_slice());
            match parse_isize(text.as_str()) {
                Some(n) => Ok(VMInputResponse::Int(n)),
                None => Err(InputLineError::InvalidNumber),
            }
        },
        VMInputRequestType::Char => {
            if t.len() == 1 && (t[0] as u32) < 128 {
                Ok(VMInputResponse::Char(t[0]))
            } else {
                Err(InputLineError::NotOneAsciiChar)
            }
        },
        VMInputRequestType::String => {
            let mut i: usize = 0;
            while i < t.len()
                invariant
                    i <= t@.len(),
                    t@ == without_newlines(line@),
                    request == VMInputRequestType::String,
                    forall|j: int| 0 <= j < i ==> (#[trigger] t@[j] as u32) < 128,
                decreases t.len() - i,
            {
                if (t[i] as u32) >= 128 {
                    proof {
                        assert(!((t@[i as int] as u32) < 128));
                        assert(!all_ascii(t@));
                    }
                    return Err(InputLineError::NotAscii);
                }
                i = i + 1;
            }
            Ok(VMInputResponse::String(string_from_chars(t.as_slice())))
        },
    }
}

} // verus!
