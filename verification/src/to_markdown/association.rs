//! The label of a node that is matched with other nodes by its identifier.

use vstd::prelude::*;
use crate::code::chars_of;
use crate::to_markdown::node::Definition;
use crate::to_markdown::state::State;
use crate::to_markdown::text::{extend, is_punctuation, punctuation, string_of};
use crate::to_markdown::util::decode::{hex_number, hex_value, is_hex, is_scalar};
use crate::to_markdown::util::safe::is_digit;

verus! {

/// The most digits of a decimal character reference.
pub const CHARACTER_REFERENCE_DECIMAL_SIZE_MAX: usize = 7;

/// The most digits of a hexadecimal character reference.
pub const CHARACTER_REFERENCE_HEXADECIMAL_SIZE_MAX: usize = 6;

/// The most characters of the name of a character reference.
pub const CHARACTER_REFERENCE_NAMED_SIZE_MAX: usize = 31;

/// What the character reference of the name `name` stands for, if there
/// is such a name among those of HTML 5 (`html5`) or among those of HTML 4.
pub uninterp spec fn named_reference(name: Seq<char>, html5: bool) -> Option<Seq<char>>;

/// The number that the decimal digits `digits` stand for.
pub open spec fn decimal_number(digits: Seq<char>) -> int
    decreases digits.len(),
{
    if digits.len() == 0 {
        0
    } else {
        decimal_number(digits.drop_last()) * 10 + hex_value(digits.last())
    }
}

/// Whether a reference to the character of the number `n` is read as that
/// character: the number is that of a character, and the character is no
/// control character but a tab, a line feed, a form feed or a carriage
/// return.
pub open spec fn is_allowed(n: int) -> bool {
    &&& is_scalar(n)
    &&& !(0 <= n <= 0x08)
    &&& n != 0x0B
    &&& !(0x0E <= n <= 0x1F)
    &&& !(0x7F <= n <= 0x9F)
}

/// What a character reference to the number `n` stands for: the character
/// of that number where that is allowed, and the replacement character where
/// it is not.
pub open spec fn numeric_reference(n: int) -> Seq<char> {
    if is_allowed(n) {
        seq![n as char]
    } else {
        seq!['\u{FFFD}']
    }
}

/// Calls `markdown::decode_named`: looks the name up in the list of the
/// named character references of HTML 5, or of HTML 4, and hands back what
/// it stands for, or nothing where the list does not hold the name. What it
/// stands for is given a name here: the lists have 2125 and 252 entries.
#[verifier::external_body]
fn decode_named(name: &Vec<char>, html5: bool) -> (found: Option<Vec<char>>)
    ensures
        match found {
            Some(value) => named_reference(name@, html5) == Some(value@),
            None => named_reference(name@, html5) is None,
        },
{
    let value: String = name.iter().collect();
    markdown::decode_named(&value, html5).map(|decoded| decoded.chars().collect())
}

/// Calls `markdown::decode_numeric` on decimal digits, with the radix 10,
/// or on hexadecimal digits, with the radix 16: the character of the number
/// that the digits stand for, or the replacement character where the number
/// is that of no character or of a control character that is not allowed.
/// The function stops the program on anything but digits and on a number
/// that is too large for 32 bits, so one to seven decimal digits or one to
/// six hexadecimal digits are asked for.
#[verifier::external_body]
fn decode_numeric(digits: &Vec<char>, radix: u32) -> (decoded: Vec<char>)
    requires
        radix == 10 || radix == 16,
        radix == 10 ==> 1 <= digits@.len() <= CHARACTER_REFERENCE_DECIMAL_SIZE_MAX,
        radix == 10 ==> forall|i: int| 0 <= i < digits@.len() ==> is_digit(#[trigger] digits@[i]),
        radix == 16 ==> 1 <= digits@.len() <= CHARACTER_REFERENCE_HEXADECIMAL_SIZE_MAX,
        radix == 16 ==> forall|i: int| 0 <= i < digits@.len() ==> is_hex(#[trigger] digits@[i]),
    ensures
        decoded@ == numeric_reference(
            if radix == 10 {
                decimal_number(digits@)
            } else {
                hex_number(digits@)
            },
        ),
{
    let value: String = digits.iter().collect();
    markdown::decode_numeric(&value, radix).chars().collect()
}

/// The kinds of character reference.
#[derive(Clone, Copy, Debug, PartialEq, Eq, Structural)]
pub enum ReferenceKind {
    Named,
    Decimal,
    Hexadecimal,
}

impl ReferenceKind {
    /// Whether `c` can stand in a reference of the kind.
    pub open spec fn admits(self, c: char) -> bool {
        match self {
            ReferenceKind::Named => is_digit(c) || 'a' <= c <= 'z' || 'A' <= c <= 'Z',
            ReferenceKind::Decimal => is_digit(c),
            ReferenceKind::Hexadecimal => is_hex(c),
        }
    }

    /// The most characters of a reference of the kind.
    pub open spec fn size_max(self) -> int {
        match self {
            ReferenceKind::Named => CHARACTER_REFERENCE_NAMED_SIZE_MAX as int,
            ReferenceKind::Decimal => CHARACTER_REFERENCE_DECIMAL_SIZE_MAX as int,
            ReferenceKind::Hexadecimal => CHARACTER_REFERENCE_HEXADECIMAL_SIZE_MAX as int,
        }
    }

    /// Whether `c` can stand in a reference of the kind.
    pub fn allows(self, c: char) -> (b: bool)
        ensures
            b == self.admits(c),
    {
        let digit = '0' <= c && c <= '9';
        match self {
            ReferenceKind::Named => digit || ('a' <= c && c <= 'z') || ('A' <= c && c <= 'Z'),
            ReferenceKind::Decimal => digit,
            ReferenceKind::Hexadecimal => digit || ('A' <= c && c <= 'F') || ('a' <= c && c
                <= 'f'),
        }
    }

    /// The most characters of a reference of the kind.
    pub fn limit(self) -> (n: usize)
        ensures
            n == self.size_max(),
    {
        match self {
            ReferenceKind::Named => CHARACTER_REFERENCE_NAMED_SIZE_MAX,
            ReferenceKind::Decimal => CHARACTER_REFERENCE_DECIMAL_SIZE_MAX,
            ReferenceKind::Hexadecimal => CHARACTER_REFERENCE_HEXADECIMAL_SIZE_MAX,
        }
    }
}

/// Number of characters in `s` from `from` on that can stand in a
/// reference of `kind`.
pub open spec fn value_run(s: Seq<char>, from: int, kind: ReferenceKind) -> int
    decreases s.len() - from,
{
    if 0 <= from < s.len() && kind.admits(s[from]) {
        1 + value_run(s, from + 1, kind)
    } else {
        0
    }
}

pub proof fn lemma_value_run(s: Seq<char>, from: int, kind: ReferenceKind)
    ensures
        value_run(s, from, kind) >= 0,
    decreases s.len() - from,
{
    if 0 <= from < s.len() && kind.admits(s[from]) {
        lemma_value_run(s, from + 1, kind);
    }
}

/// The kind of the reference that may begin with the `&` at `i`, and where
/// its value begins.
pub open spec fn reference_kind(s: Seq<char>, i: int) -> (ReferenceKind, int) {
    if i + 1 < s.len() && s[i + 1] == '#' {
        if i + 2 < s.len() && (s[i + 2] == 'x' || s[i + 2] == 'X') {
            (ReferenceKind::Hexadecimal, i + 3)
        } else {
            (ReferenceKind::Decimal, i + 2)
        }
    } else {
        (ReferenceKind::Named, i + 1)
    }
}

/// What the reference whose value is `value` stands for; nothing for a
/// name that is not known.
pub open spec fn reference_value(kind: ReferenceKind, value: Seq<char>) -> Option<Seq<char>> {
    match kind {
        ReferenceKind::Named => named_reference(value, true),
        ReferenceKind::Decimal => Some(numeric_reference(decimal_number(value))),
        ReferenceKind::Hexadecimal => Some(numeric_reference(hex_number(value))),
    }
}

/// What the reference that begins with the `&` at `i` stands for, and where
/// it ends; nothing where no reference begins: behind the `&` and the marks
/// of its kind stands a value of the kind, neither empty nor too long, and
/// behind that `;`.
pub open spec fn reference_at(s: Seq<char>, i: int) -> Option<(Seq<char>, int)> {
    let (kind, start) = reference_kind(s, i);
    let size = value_run(s, start, kind);
    if 1 <= size <= kind.size_max() && start + size < s.len() && s[start + size] == ';' {
        match reference_value(kind, s.subrange(start, start + size)) {
            Some(value) => Some((value, start + size + 1)),
            None => None,
        }
    } else {
        None
    }
}

/// The text from `i` on with its character escapes and character
/// references read.
pub open spec fn unescaped(s: Seq<char>, i: int) -> Seq<char>
    decreases s.len() - i,
{
    if i < 0 || i >= s.len() {
        Seq::empty()
    } else if s[i] == '\\' && i + 1 < s.len() && is_punctuation(s[i + 1]) {
        seq![s[i + 1]] + unescaped(s, i + 2)
    } else if s[i] == '&' {
        match reference_at(s, i) {
            Some((value, end)) => if end > i {
                value + unescaped(s, end)
            } else {
                Seq::empty()
            },
            None => seq![s[i]] + unescaped(s, i + 1),
        }
    } else {
        seq![s[i]] + unescaped(s, i + 1)
    }
}

/// The label of a definition: the label that it has, or its identifier
/// with the character escapes and character references read.
pub open spec fn association_text(node: &Definition) -> Seq<char> {
    match node.label {
        Some(label) => label@,
        None => unescaped(node.identifier@, 0),
    }
}

/// Number of characters from `from` on that can stand in a reference of
/// `kind`, counted up to one more than the most that a reference can have.
fn run_of(s: &Vec<char>, from: usize, kind: ReferenceKind) -> (size: usize)
    requires
        from <= s.len(),
    ensures
        from + size <= s.len(),
        size <= kind.size_max() ==> size == value_run(s@, from as int, kind),
        size > kind.size_max() ==> value_run(s@, from as int, kind) > kind.size_max(),
        forall|k: int| from <= k < from + size ==> kind.admits(#[trigger] s@[k]),
{
    let limit = kind.limit();
    let mut size: usize = 0;
    while from + size < s.len() && size <= limit && kind.allows(s[from + size])
        invariant
            from + size <= s.len(),
            size <= limit + 1,
            limit == kind.size_max(),
            value_run(s@, from as int, kind) == size + value_run(s@, from + size, kind),
            forall|k: int| from <= k < from + size ==> kind.admits(#[trigger] s@[k]),
        decreases s.len() - size,
    {
        size = size + 1;
    }
    proof {
        lemma_value_run(s@, from + size, kind);
    }
    size
}

/// Read the reference that begins with the `&` at `i`, if one does.
fn reference(s: &Vec<char>, i: usize) -> (found: Option<(Vec<char>, usize)>)
    requires
        i < s.len(),
    ensures
        match found {
            Some((value, end)) => reference_at(s@, i as int) == Some((value@, end as int)) && i
                < end <= s.len(),
            None => reference_at(s@, i as int) is None,
        },
{
    let mut kind = ReferenceKind::Named;
    let mut start = i + 1;
    if i + 1 < s.len() && s[i + 1] == '#' {
        if i + 2 < s.len() && (s[i + 2] == 'x' || s[i + 2] == 'X') {
            kind = ReferenceKind::Hexadecimal;
            start = i + 3;
        } else {
            kind = ReferenceKind::Decimal;
            start = i + 2;
        }
    }
    let size = run_of(s, start, kind);
    if size == 0 || size > kind.limit() || start + size >= s.len() || s[start + size] != ';' {
        return None;
    }
    let mut value: Vec<char> = Vec::new();
    let mut k = start;
    while k < start + size
        invariant
            start <= k <= start + size < s.len(),
            value@ == s@.subrange(start as int, k as int),
        decreases start + size - k,
    {
        value.push(s[k]);
        proof {
            assert(value@ =~= s@.subrange(start as int, k + 1));
        }
        k = k + 1;
    }
    match kind {
        ReferenceKind::Named => match decode_named(&value, true) {
            Some(decoded) => Some((decoded, start + size + 1)),
            None => None,
        },
        ReferenceKind::Decimal => Some((decode_numeric(&value, 10), start + size + 1)),
        ReferenceKind::Hexadecimal => Some((decode_numeric(&value, 16), start + size + 1)),
    }
}

/// The text `s` with its character escapes and character references read.
pub fn unescape(s: &Vec<char>) -> (out: Vec<char>)
    ensures
        out@ == unescaped(s@, 0),
{
    let mut out: Vec<char> = Vec::new();
    let mut i: usize = 0;
    proof {
        assert(out@ + unescaped(s@, 0) =~= unescaped(s@, 0));
    }
    while i < s.len()
        invariant
            i <= s.len(),
            out@ + unescaped(s@, i as int) == unescaped(s@, 0),
        decreases s.len() - i,
    {
        let ghost before = out@;
        let c = s[i];
        if c == '\\' && i + 1 < s.len() && punctuation(s[i + 1]) {
            out.push(s[i + 1]);
            proof {
                assert(out@ + unescaped(s@, i + 2) =~= before + unescaped(s@, i as int));
            }
            i = i + 2;
        } else if c == '&' {
            match reference(s, i) {
                Some((value, end)) => {
                    extend(&mut out, &value);
                    proof {
                        assert(out@ + unescaped(s@, end as int) =~= before + unescaped(
                            s@,
                            i as int,
                        ));
                    }
                    i = end;
                },
                None => {
                    out.push(c);
                    proof {
                        assert(out@ + unescaped(s@, i + 1) =~= before + unescaped(s@, i as int));
                    }
                    i = i + 1;
                },
            }
        } else {
            out.push(c);
            proof {
                assert(out@ + unescaped(s@, i + 1) =~= before + unescaped(s@, i as int));
            }
            i = i + 1;
        }
    }
    proof {
        assert(out@ + Seq::<char>::empty() =~= out@);
    }
    out
}

impl State {
    /// The label of `node`: the label that it has, or its identifier with
    /// the character escapes and character references read.
    pub fn association(&self, node: &Definition) -> (label: String)
        ensures
            label@ == association_text(node),
    {
        match &node.label {
            Some(label) => label.clone(),
            None => {
                let identifier = chars_of(node.identifier.as_str());
                let read = unescape(&identifier);
                string_of(&read)
            },
        }
    }
}

} // verus!
