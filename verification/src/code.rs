//! The input alphabet of the tokenizer.

use vstd::prelude::*;
use vstd::std_specs::iter::IteratorSpec;

verus! {

/// Number of columns between tab stops.
pub const TAB_SIZE: usize = 4;

/// One unit of input.
#[derive(Clone, Copy, Debug, PartialEq, Eq, Structural)]
pub enum Code {
    /// End of the input.
    Eof,
    /// A carriage return directly followed by a line feed, as one unit.
    CarriageReturnLineFeed,
    /// Any other character.
    Char(char),
    /// A column that a preceding tab reaches over.
    VirtualSpace,
}

impl Code {
    /// A line ending: `\r\n`, `\n` or `\r`.
    pub open spec fn is_eol(self) -> bool {
        self == Code::CarriageReturnLineFeed || self == Code::Char('\n') || self == Code::Char('\r')
    }

    /// A line ending or the end of the input.
    pub open spec fn is_line_end(self) -> bool {
        self == Code::Eof || self.is_eol()
    }

    /// A space, a tab, or a column that a tab reaches over.
    pub open spec fn is_space_or_tab(self) -> bool {
        self == Code::VirtualSpace || self == Code::Char(' ') || self == Code::Char('\t')
    }

    /// An ASCII letter.
    pub open spec fn is_alpha(self) -> bool {
        self matches Code::Char(c) && ('a' <= c <= 'z' || 'A' <= c <= 'Z')
    }

    /// An ASCII letter or digit.
    pub open spec fn is_alphanumeric(self) -> bool {
        self matches Code::Char(c) && ('a' <= c <= 'z' || 'A' <= c <= 'Z' || '0' <= c <= '9')
    }

    /// Number of bytes that the code takes in the UTF-8 source.
    pub open spec fn width(self) -> nat {
        match self {
            Code::Eof => 0,
            Code::VirtualSpace => 0,
            Code::CarriageReturnLineFeed => 2,
            Code::Char(c) => if (c as u32) < 0x80 {
                1
            } else if (c as u32) < 0x800 {
                2
            } else if (c as u32) < 0x10000 {
                3
            } else {
                4
            },
        }
    }

    /// Whether the code is the end of the input.
    pub fn at_end(self) -> (b: bool)
        ensures
            b == (self == Code::Eof),
    {
        match self {
            Code::Eof => true,
            _ => false,
        }
    }

    /// Whether the code is the character `c`.
    pub fn is(self, c: char) -> (b: bool)
        ensures
            b == (self == Code::Char(c)),
    {
        match self {
            Code::Char(found) => found == c,
            _ => false,
        }
    }

    pub fn alpha(self) -> (b: bool)
        ensures
            b == self.is_alpha(),
    {
        match self {
            Code::Char(c) => ('a' <= c && c <= 'z') || ('A' <= c && c <= 'Z'),
            _ => false,
        }
    }

    pub fn alphanumeric(self) -> (b: bool)
        ensures
            b == self.is_alphanumeric(),
    {
        match self {
            Code::Char(c) => ('a' <= c && c <= 'z') || ('A' <= c && c <= 'Z') || ('0' <= c && c
                <= '9'),
            _ => false,
        }
    }

    pub fn eol(self) -> (b: bool)
        ensures
            b == self.is_eol(),
    {
        match self {
            Code::CarriageReturnLineFeed => true,
            Code::Char(c) => c == '\n' || c == '\r',
            _ => false,
        }
    }

    pub fn line_end(self) -> (b: bool)
        ensures
            b == self.is_line_end(),
    {
        match self {
            Code::Eof | Code::CarriageReturnLineFeed => true,
            Code::Char(c) => c == '\n' || c == '\r',
            Code::VirtualSpace => false,
        }
    }

    pub fn space_or_tab(self) -> (b: bool)
        ensures
            b == self.is_space_or_tab(),
    {
        match self {
            Code::VirtualSpace => true,
            Code::Char(c) => c == ' ' || c == '\t',
            _ => false,
        }
    }

    /// Number of bytes that the code takes in the UTF-8 source.
    pub fn byte_width(self) -> (n: usize)
        ensures
            n == self.width(),
            n <= 4,
    {
        match self {
            Code::Eof | Code::VirtualSpace => 0,
            Code::CarriageReturnLineFeed => 2,
            Code::Char(c) => {
                let value: u32 = c as u32;
                if value < 0x80 {
                    1
                } else if value < 0x800 {
                    2
                } else if value < 0x10000 {
                    3
                } else {
                    4
                }
            },
        }
    }
}

/// Number of columns, 0 to 3, that a tab reaches over besides its own
/// when it stands `phase` columns behind a tab stop.
pub open spec fn tab_fill(phase: nat) -> nat {
    if phase < 3 {
        (3 - phase) as nat
    } else {
        0
    }
}

/// `n` columns that a tab reaches over.
pub open spec fn virtual_spaces(n: nat) -> Seq<Code> {
    Seq::new(n, |i: int| Code::VirtualSpace)
}

/// The code of a character.
pub open spec fn code_of(c: char) -> Code {
    Code::Char(c)
}

/// The codes of `chars`, when the first of them stands `phase` columns
/// behind a tab stop: a carriage return with the line feed behind it is one
/// code, and behind a tab stands one code for each further column up to the
/// next tab stop.
pub open spec fn codes_from(chars: Seq<char>, phase: nat) -> Seq<Code>
    decreases chars.len(),
{
    if chars.len() == 0 {
        Seq::empty()
    } else if chars[0] == '\r' && chars.len() > 1 && chars[1] == '\n' {
        seq![Code::CarriageReturnLineFeed] + codes_from(chars.skip(2), 0)
    } else if chars[0] == '\r' || chars[0] == '\n' {
        seq![code_of(chars[0])] + codes_from(chars.skip(1), 0)
    } else if chars[0] == '\t' {
        seq![code_of(chars[0])] + virtual_spaces(tab_fill(phase % 4)) + codes_from(
            chars.skip(1),
            0,
        )
    } else {
        seq![code_of(chars[0])] + codes_from(chars.skip(1), (phase + 1) % 4)
    }
}

/// The codes of a document.
pub open spec fn codes_of(chars: Seq<char>) -> Seq<Code> {
    codes_from(chars, 0)
}

/// No code of `codes` stands for the end of the input.
pub open spec fn proper(codes: Seq<Code>) -> bool {
    forall|i: int| 0 <= i < codes.len() ==> #[trigger] codes[i] != Code::Eof
}

pub proof fn lemma_proper_push(codes: Seq<Code>, code: Code)
    requires
        proper(codes),
        code != Code::Eof,
    ensures
        proper(codes.push(code)),
{
    assert forall|i: int| 0 <= i < codes.push(code).len() implies #[trigger] codes.push(code)[i]
        != Code::Eof by {
        if i < codes.len() {
            assert(codes[i] != Code::Eof);
        }
    }
}

/// The characters of `value`.
pub fn chars_of(value: &str) -> (chars: Vec<char>)
    ensures
        chars@ == value@,
{
    let mut chars: Vec<char> = Vec::new();
    let mut rest = value.chars();
    loop
        invariant
            chars@ + rest.remaining() == value@,
            rest.decrease() is Some,
        ensures
            chars@ == value@,
        decreases rest.decrease()->0,
    {
        let ghost before = rest.remaining();
        match rest.next() {
            Some(c) => {
                chars.push(c);
                proof {
                    assert(chars@ + rest.remaining() =~= chars@.drop_last() + before);
                }
            },
            None => {
                proof {
                    assert(chars@ + before =~= chars@);
                }
                break ;
            },
        }
    }
    chars
}

/// Turn the characters of a document into codes.
pub fn parse_chars(chars: &Vec<char>) -> (codes: Vec<Code>)
    ensures
        codes@ == codes_of(chars@),
        proper(codes@),
{
    let mut codes: Vec<Code> = Vec::new();
    let mut i: usize = 0;
    let mut phase: usize = 0;
    proof {
        assert(chars@.skip(0) =~= chars@);
        assert(codes@ + codes_of(chars@) =~= codes_of(chars@));
    }
    while i < chars.len()
        invariant
            i <= chars.len(),
            phase < 4,
            codes@ + codes_from(chars@.skip(i as int), phase as nat) == codes_of(chars@),
            proper(codes@),
        decreases chars.len() - i,
    {
        let c = chars[i];
        let ghost rest = chars@.skip(i as int);
        let ghost before = codes@;
        proof {
            assert(rest[0] == c);
            lemma_proper_push(before, Code::Char(c));
            lemma_proper_push(before, Code::CarriageReturnLineFeed);
        }
        if c == '\r' && i + 1 < chars.len() && chars[i + 1] == '\n' {
            codes.push(Code::CarriageReturnLineFeed);
            proof {
                assert(rest[1] == chars@[i + 1]);
                assert(rest.skip(2) =~= chars@.skip(i + 2));
                assert(codes@ + codes_from(chars@.skip(i + 2), 0) =~= before + codes_from(
                    rest,
                    phase as nat,
                ));
            }
            i = i + 2;
            phase = 0;
        } else if c == '\r' || c == '\n' {
            codes.push(Code::Char(c));
            proof {
                if rest.len() > 1 {
                    assert(rest[1] == chars@[i + 1]);
                }
                assert(rest.skip(1) =~= chars@.skip(i + 1));
                assert(codes@ + codes_from(chars@.skip(i + 1), 0) =~= before + codes_from(
                    rest,
                    phase as nat,
                ));
            }
            i = i + 1;
            phase = 0;
        } else if c == '\t' {
            codes.push(Code::Char(c));
            let mut fill: usize = 0;
            let ghost tabbed = codes@;
            proof {
                assert(codes@ =~= tabbed + virtual_spaces(0));
            }
            while phase + fill < 3
                invariant
                    phase < 4,
                    fill <= tab_fill(phase as nat),
                    codes@ == tabbed + virtual_spaces(fill as nat),
                    proper(codes@),
                decreases 3 - fill,
            {
                let ghost so_far = codes@;
                codes.push(Code::VirtualSpace);
                proof {
                    lemma_proper_push(so_far, Code::VirtualSpace);
                    assert(codes@ =~= tabbed + virtual_spaces((fill + 1) as nat));
                }
                fill = fill + 1;
            }
            proof {
                assert(rest.skip(1) =~= chars@.skip(i + 1));
                assert(codes@ + codes_from(chars@.skip(i + 1), 0) =~= before + codes_from(
                    rest,
                    phase as nat,
                ));
            }
            i = i + 1;
            phase = 0;
        } else {
            codes.push(Code::Char(c));
            proof {
                assert(rest.skip(1) =~= chars@.skip(i + 1));
                let ghost next: nat = ((phase as nat) + 1) % 4;
                assert(next == ((phase + 1) % 4) as nat);
                assert(codes@ + codes_from(chars@.skip(i + 1), next) =~= before + codes_from(
                    rest,
                    phase as nat,
                ));
            }
            i = i + 1;
            phase = (phase + 1) % 4;
        }
    }
    proof {
        assert(chars@.skip(i as int) =~= Seq::empty());
        assert(codes@ + Seq::<Code>::empty() =~= codes@);
    }
    codes
}

/// The characters that the standard library reads from `bytes` when it
/// puts the replacement character in the place of what is not UTF-8.
pub uninterp spec fn lossy(bytes: Seq<u8>) -> Seq<char>;

/// Calls `String::from_utf8_lossy`: the string that the bytes encode, with
/// the replacement character in the place of every sequence of bytes that
/// is not UTF-8. What it reads is given a name; of bytes that are UTF-8 it is
/// the string that they encode.
#[verifier::external_body]
fn decode_lossy(bytes: &[u8]) -> (value: String)
    ensures
        value@ == lossy(bytes@),
        vstd::utf8::valid_utf8(bytes@) ==> value@ == vstd::utf8::decode_utf8(bytes@),
{
    String::from_utf8_lossy(bytes).into_owned()
}

/// Turn the bytes of a document into codes; what is not UTF-8 becomes the
/// replacement character.
pub fn parse_bytes(bytes: &[u8]) -> (codes: Vec<Code>)
    ensures
        codes@ == codes_of(lossy(bytes@)),
        vstd::utf8::valid_utf8(bytes@) ==> codes@ == codes_of(vstd::utf8::decode_utf8(bytes@)),
        proper(codes@),
{
    let value = decode_lossy(bytes);
    parse(value.as_str())
}

/// Turn a document into codes.
pub fn parse(value: &str) -> (codes: Vec<Code>)
    ensures
        codes@ == codes_of(value@),
        proper(codes@),
{
    let chars = chars_of(value);
    parse_chars(&chars)
}

} // verus!
