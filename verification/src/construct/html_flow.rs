//! HTML in flow: a line that begins with what looks like a tag, a comment,
//! an instruction, a declaration or character data, and the lines behind it
//! up to where that kind of HTML ends.

use vstd::prelude::*;
use crate::code::{Code, chars_of};
use crate::event::TokenType;
use crate::state::{Family, HtmlKind, State, StateFnResult, StateName};
use crate::tokenizer::{AttemptKind, Tokenizer, TokenizerView, left, remainder};

verus! {

/// The most characters that the name of a tag is kept of: no name that
/// matters is longer.
pub const HTML_NAME_SIZE_MAX: u64 = 10;

/// A name that is too long to be one of those that matter.
pub const HTML_NAME_LONG: u64 = 0xFFFF_FFFF_FFFF_FFFF;

/// Number of names of blocks.
pub const HTML_BLOCK_NAMES: usize = 62;

/// Number of names of elements whose content is raw.
pub const HTML_RAW_NAMES: usize = 4;

/// The name of a block: a tag with such a name begins HTML that ends at
/// a blank line.
pub open spec fn block_name_of(i: usize) -> &'static str {
    match i {
        0 => "address",
        1 => "article",
        2 => "aside",
        3 => "base",
        4 => "basefont",
        5 => "blockquote",
        6 => "body",
        7 => "caption",
        8 => "center",
        9 => "col",
        10 => "colgroup",
        11 => "dd",
        12 => "details",
        13 => "dialog",
        14 => "dir",
        15 => "div",
        16 => "dl",
        17 => "dt",
        18 => "fieldset",
        19 => "figcaption",
        20 => "figure",
        21 => "footer",
        22 => "form",
        23 => "frame",
        24 => "frameset",
        25 => "h1",
        26 => "h2",
        27 => "h3",
        28 => "h4",
        29 => "h5",
        30 => "h6",
        31 => "head",
        32 => "header",
        33 => "hr",
        34 => "html",
        35 => "iframe",
        36 => "legend",
        37 => "li",
        38 => "link",
        39 => "main",
        40 => "menu",
        41 => "menuitem",
        42 => "nav",
        43 => "noframes",
        44 => "ol",
        45 => "optgroup",
        46 => "option",
        47 => "p",
        48 => "param",
        49 => "section",
        50 => "source",
        51 => "summary",
        52 => "table",
        53 => "tbody",
        54 => "td",
        55 => "tfoot",
        56 => "th",
        57 => "thead",
        58 => "title",
        59 => "tr",
        60 => "track",
        _ => "ul",
    }
}

/// The name of an element whose content is raw: a tag with such a name
/// begins HTML that ends at the tag which closes such an element.
pub open spec fn raw_name_of(i: usize) -> &'static str {
    match i {
        0 => "pre",
        1 => "script",
        2 => "style",
        _ => "textarea",
    }
}

/// The name of a block.
pub fn block_name(i: usize) -> (name: &'static str)
    ensures
        name == block_name_of(i),
{
    match i {
        0 => "address",
        1 => "article",
        2 => "aside",
        3 => "base",
        4 => "basefont",
        5 => "blockquote",
        6 => "body",
        7 => "caption",
        8 => "center",
        9 => "col",
        10 => "colgroup",
        11 => "dd",
        12 => "details",
        13 => "dialog",
        14 => "dir",
        15 => "div",
        16 => "dl",
        17 => "dt",
        18 => "fieldset",
        19 => "figcaption",
        20 => "figure",
        21 => "footer",
        22 => "form",
        23 => "frame",
        24 => "frameset",
        25 => "h1",
        26 => "h2",
        27 => "h3",
        28 => "h4",
        29 => "h5",
        30 => "h6",
        31 => "head",
        32 => "header",
        33 => "hr",
        34 => "html",
        35 => "iframe",
        36 => "legend",
        37 => "li",
        38 => "link",
        39 => "main",
        40 => "menu",
        41 => "menuitem",
        42 => "nav",
        43 => "noframes",
        44 => "ol",
        45 => "optgroup",
        46 => "option",
        47 => "p",
        48 => "param",
        49 => "section",
        50 => "source",
        51 => "summary",
        52 => "table",
        53 => "tbody",
        54 => "td",
        55 => "tfoot",
        56 => "th",
        57 => "thead",
        58 => "title",
        59 => "tr",
        60 => "track",
        _ => "ul",
    }
}

/// The name of an element whose content is raw.
pub fn raw_name(i: usize) -> (name: &'static str)
    ensures
        name == raw_name_of(i),
{
    match i {
        0 => "pre",
        1 => "script",
        2 => "style",
        _ => "textarea",
    }
}

/// The number for a character of a name: letters count without their
/// case.
pub open spec fn letter(c: char) -> int {
    if 'a' <= c <= 'z' {
        c as int - 'a' as int + 1
    } else if 'A' <= c <= 'Z' {
        c as int - 'A' as int + 1
    } else if '0' <= c <= '9' {
        c as int - '0' as int + 27
    } else {
        37
    }
}

/// The name `name` with the character `c` behind it, as a number; a name
/// of more than ten characters is kept as too long.
pub open spec fn grown(name: u64, c: char) -> u64 {
    if name >= 0x40_0000_0000_0000 {
        HTML_NAME_LONG
    } else {
        (name * 64 + letter(c)) as u64
    }
}

/// The name made of `chars`, as a number.
pub open spec fn packed(chars: Seq<char>) -> u64
    decreases chars.len(),
{
    if chars.len() == 0 {
        0
    } else {
        grown(packed(chars.drop_last()), chars.last())
    }
}

/// Whether the number `name` is that of the name of a block.
pub open spec fn is_block_name(name: u64) -> bool {
    exists|i: usize| i < HTML_BLOCK_NAMES && packed(#[trigger] block_name_of(i)@) == name
}

/// Whether the number `name` is that of the name of an element whose
/// content is raw.
pub open spec fn is_raw_name(name: u64) -> bool {
    exists|i: usize| i < HTML_RAW_NAMES && packed(#[trigger] raw_name_of(i)@) == name
}

/// The name `name` with the character `c` behind it.
pub fn grow(name: u64, c: char) -> (more: u64)
    ensures
        more == grown(name, c),
{
    if name >= 0x40_0000_0000_0000 {
        HTML_NAME_LONG
    } else {
        let value: u64 = if 'a' <= c && c <= 'z' {
            c as u64 - 'a' as u64 + 1
        } else if 'A' <= c && c <= 'Z' {
            c as u64 - 'A' as u64 + 1
        } else if '0' <= c && c <= '9' {
            c as u64 - '0' as u64 + 27
        } else {
            37
        };
        name * 64 + value
    }
}

/// The name `name` with the character of `code` behind it.
pub open spec fn grown_by(name: u64, code: Code) -> u64 {
    match code {
        Code::Char(c) => grown(name, c),
        _ => name,
    }
}

/// The name `name` with the character of `code` behind it.
pub fn grow_by(name: u64, code: Code) -> (more: u64)
    ensures
        more == grown_by(name, code),
{
    match code {
        Code::Char(c) => grow(name, c),
        _ => name,
    }
}

/// The name `value` as a number.
pub fn pack(value: &str) -> (name: u64)
    ensures
        name == packed(value@),
{
    let chars = chars_of(value);
    let mut name: u64 = 0;
    let mut i: usize = 0;
    proof {
        assert(chars@.take(0) =~= Seq::empty());
    }
    while i < chars.len()
        invariant
            i <= chars.len(),
            chars@ == value@,
            name == packed(chars@.take(i as int)),
        decreases chars.len() - i,
    {
        proof {
            assert(chars@.take(i + 1).drop_last() =~= chars@.take(i as int));
        }
        name = grow(name, chars[i]);
        i = i + 1;
    }
    proof {
        assert(chars@.take(i as int) =~= chars@);
    }
    name
}

/// Whether the number `name` is that of the name of a block.
pub fn block(name: u64) -> (found: bool)
    ensures
        found == is_block_name(name),
{
    let mut i: usize = 0;
    while i < HTML_BLOCK_NAMES
        invariant
            i <= HTML_BLOCK_NAMES,
            forall|k: usize| k < i ==> packed(#[trigger] block_name_of(k)@) != name,
        decreases HTML_BLOCK_NAMES - i,
    {
        if pack(block_name(i)) == name {
            return true;
        }
        i = i + 1;
    }
    false
}

/// Whether the number `name` is that of the name of an element whose
/// content is raw.
pub fn raw(name: u64) -> (found: bool)
    ensures
        found == is_raw_name(name),
{
    let mut i: usize = 0;
    while i < HTML_RAW_NAMES
        invariant
            i <= HTML_RAW_NAMES,
            forall|k: usize| k < i ==> packed(#[trigger] raw_name_of(k)@) != name,
        decreases HTML_RAW_NAMES - i,
    {
        if pack(raw_name(i)) == name {
            return true;
        }
        i = i + 1;
    }
    false
}

/// The character at `index` of `CDATA[`, as a code.
pub open spec fn cdata_code(index: usize) -> Code {
    if index == 0 {
        Code::Char('C')
    } else if index == 1 {
        Code::Char('D')
    } else if index == 2 {
        Code::Char('A')
    } else if index == 3 {
        Code::Char('T')
    } else if index == 4 {
        Code::Char('A')
    } else {
        Code::Char('[')
    }
}

/// Whether `code` is the character at `index` of `CDATA[`.
pub fn cdata(code: Code, index: usize) -> (b: bool)
    ensures
        b == (code == cdata_code(index)),
{
    if index == 0 {
        code.is('C')
    } else if index == 1 {
        code.is('D')
    } else if index == 2 {
        code.is('A')
    } else if index == 3 {
        code.is('T')
    } else if index == 4 {
        code.is('A')
    } else {
        code.is('[')
    }
}

/// What the first state of HTML does; `interrupt` says whether the HTML
/// would end content that stands in front of it.
pub open spec fn begin_step(t: TokenizerView, code: Code, interrupt: bool) -> (
    TokenizerView,
    StateFnResult,
) {
    if code.is_space_or_tab() {
        (
            t.enter(TokenType::HtmlFlow).enter(TokenType::Whitespace).consume(),
            (State::Next(StateName::HtmlFlowPrefix { interrupt, seen: 1 }), None),
        )
    } else if code == Code::Char('<') {
        (
            t.enter(TokenType::HtmlFlow).enter(TokenType::HtmlFlowData).consume(),
            (State::Next(StateName::HtmlFlowOpen { interrupt }), None),
        )
    } else {
        (t, (State::Failure, remainder(code, false)))
    }
}

/// What [`start`] does.
pub open spec fn start_step(t: TokenizerView, code: Code) -> (TokenizerView, StateFnResult) {
    begin_step(t, code, false)
}

/// Before HTML.
///
/// ```markdown
/// |<x />
/// ```
pub fn start(tokenizer: &mut Tokenizer, code: Code) -> (result: StateFnResult)
    requires
        old(tokenizer)@.awaits(StateName::HtmlFlowStart, code),
    ensures
        old(tokenizer)@.stepped(StateName::HtmlFlowStart, code, final(tokenizer)@, result),
        (final(tokenizer)@, result) == start_step(old(tokenizer)@, code),
{
    if code.space_or_tab() {
        tokenizer.enter(TokenType::HtmlFlow);
        tokenizer.enter(TokenType::Whitespace);
        tokenizer.consume(code);
        (State::Next(StateName::HtmlFlowPrefix { interrupt: false, seen: 1 }), None)
    } else if code.is('<') {
        tokenizer.enter(TokenType::HtmlFlow);
        tokenizer.enter(TokenType::HtmlFlowData);
        tokenizer.consume(code);
        (State::Next(StateName::HtmlFlowOpen { interrupt: false }), None)
    } else {
        (State::Failure, left(code, false))
    }
}

/// What [`interrupt`] does.
pub open spec fn interrupt_step(t: TokenizerView, code: Code) -> (TokenizerView, StateFnResult) {
    begin_step(t, code, true)
}

/// Before HTML that would end content in front of it: a tag that is
/// none of a block and none of an element with raw content cannot do that.
///
/// ```markdown
/// a
/// |<div>
/// ```
pub fn interrupt(tokenizer: &mut Tokenizer, code: Code) -> (result: StateFnResult)
    requires
        old(tokenizer)@.awaits(StateName::HtmlFlowInterrupt, code),
    ensures
        old(tokenizer)@.stepped(StateName::HtmlFlowInterrupt, code, final(tokenizer)@, result),
        (final(tokenizer)@, result) == interrupt_step(old(tokenizer)@, code),
{
    if code.space_or_tab() {
        tokenizer.enter(TokenType::HtmlFlow);
        tokenizer.enter(TokenType::Whitespace);
        tokenizer.consume(code);
        (State::Next(StateName::HtmlFlowPrefix { interrupt: true, seen: 1 }), None)
    } else if code.is('<') {
        tokenizer.enter(TokenType::HtmlFlow);
        tokenizer.enter(TokenType::HtmlFlowData);
        tokenizer.consume(code);
        (State::Next(StateName::HtmlFlowOpen { interrupt: true }), None)
    } else {
        (State::Failure, left(code, false))
    }
}

/// What [`prefix`] does.
pub open spec fn prefix_step(t: TokenizerView, code: Code, interrupt: bool, seen: usize) -> (
    TokenizerView,
    StateFnResult,
) {
    if code.is_space_or_tab() && seen < 3 {
        (
            t.consume(),
            (State::Next(StateName::HtmlFlowPrefix { interrupt, seen: (seen + 1) as usize }), None),
        )
    } else if code == Code::Char('<') {
        (
            t.exit(TokenType::Whitespace).enter(TokenType::HtmlFlowData).consume(),
            (State::Next(StateName::HtmlFlowOpen { interrupt }), None),
        )
    } else {
        (t, (State::Failure, remainder(code, false)))
    }
}

/// In the whitespace in front of HTML: three columns at most.
///
/// ```markdown
///  | <x />
/// ```
pub fn prefix(tokenizer: &mut Tokenizer, code: Code, interrupt: bool, seen: usize) -> (result:
    StateFnResult)
    requires
        old(tokenizer)@.awaits(StateName::HtmlFlowPrefix { interrupt, seen }, code),
    ensures
        old(tokenizer)@.stepped(
            StateName::HtmlFlowPrefix { interrupt, seen },
            code,
            final(tokenizer)@,
            result,
        ),
        (final(tokenizer)@, result) == prefix_step(old(tokenizer)@, code, interrupt, seen),
{
    if code.space_or_tab() && seen < 3 {
        tokenizer.consume(code);
        (State::Next(StateName::HtmlFlowPrefix { interrupt, seen: seen + 1 }), None)
    } else if code.is('<') {
        tokenizer.exit(TokenType::Whitespace);
        tokenizer.enter(TokenType::HtmlFlowData);
        tokenizer.consume(code);
        (State::Next(StateName::HtmlFlowOpen { interrupt }), None)
    } else {
        (State::Failure, left(code, false))
    }
}

/// What [`open`] does.
pub open spec fn open_step(t: TokenizerView, code: Code, interrupt: bool) -> (
    TokenizerView,
    StateFnResult,
) {
    if code == Code::Char('!') {
        (t.consume(), (State::Next(StateName::HtmlFlowDeclarationOpen), None))
    } else if code == Code::Char('/') {
        (t.consume(), (State::Next(StateName::HtmlFlowTagCloseStart { interrupt }), None))
    } else if code == Code::Char('?') {
        (
            t.consume(),
            (
                State::Next(
                    StateName::HtmlFlowContinuationDeclarationInside { kind: HtmlKind::Instruction },
                ),
                None,
            ),
        )
    } else if code.is_alpha() {
        (
            t.consume(),
            (
                State::Next(
                    StateName::HtmlFlowTagName { interrupt, closing: false, name: grown_by(
                        0,
                        code,
                    ) },
                ),
                None,
            ),
        )
    } else {
        (t, (State::Failure, remainder(code, false)))
    }
}

/// Behind `<`, at what says which kind of HTML begins.
///
/// ```markdown
/// <|x />
/// <|!doctype>
/// <|!--xxx-->
/// ```
pub fn open(tokenizer: &mut Tokenizer, code: Code, interrupt: bool) -> (result: StateFnResult)
    requires
        old(tokenizer)@.awaits(StateName::HtmlFlowOpen { interrupt }, code),
    ensures
        old(tokenizer)@.stepped(
            StateName::HtmlFlowOpen { interrupt },
            code,
            final(tokenizer)@,
            result,
        ),
        (final(tokenizer)@, result) == open_step(old(tokenizer)@, code, interrupt),
{
    if code.is('!') {
        tokenizer.consume(code);
        (State::Next(StateName::HtmlFlowDeclarationOpen), None)
    } else if code.is('/') {
        tokenizer.consume(code);
        (State::Next(StateName::HtmlFlowTagCloseStart { interrupt }), None)
    } else if code.is('?') {
        tokenizer.consume(code);
        (
            State::Next(
                StateName::HtmlFlowContinuationDeclarationInside { kind: HtmlKind::Instruction },
            ),
            None,
        )
    } else if code.alpha() {
        tokenizer.consume(code);
        (
            State::Next(
                StateName::HtmlFlowTagName { interrupt, closing: false, name: grow_by(0, code) },
            ),
            None,
        )
    } else {
        (State::Failure, left(code, false))
    }
}

/// What [`declaration_open`] does.
pub open spec fn declaration_open_step(t: TokenizerView, code: Code) -> (
    TokenizerView,
    StateFnResult,
) {
    if code == Code::Char('-') {
        (t.consume(), (State::Next(StateName::HtmlFlowCommentOpenInside), None))
    } else if code == Code::Char('[') {
        (t.consume(), (State::Next(StateName::HtmlFlowCdataOpenInside { index: 0 }), None))
    } else if code.is_alpha() {
        (
            t.consume(),
            (
                State::Next(
                    StateName::HtmlFlowContinuationDeclarationInside { kind: HtmlKind::Declaration },
                ),
                None,
            ),
        )
    } else {
        (t, (State::Failure, remainder(code, false)))
    }
}

/// Behind `<!`, at what says whether a comment, character data or a
/// declaration begins.
///
/// ```markdown
/// <!|doctype>
/// <!|--xxx-->
/// <!|[CDATA[>&<]]>
/// ```
pub fn declaration_open(tokenizer: &mut Tokenizer, code: Code) -> (result: StateFnResult)
    requires
        old(tokenizer)@.awaits(StateName::HtmlFlowDeclarationOpen, code),
    ensures
        old(tokenizer)@.stepped(
            StateName::HtmlFlowDeclarationOpen,
            code,
            final(tokenizer)@,
            result,
        ),
        (final(tokenizer)@, result) == declaration_open_step(old(tokenizer)@, code),
{
    if code.is('-') {
        tokenizer.consume(code);
        (State::Next(StateName::HtmlFlowCommentOpenInside), None)
    } else if code.is('[') {
        tokenizer.consume(code);
        (State::Next(StateName::HtmlFlowCdataOpenInside { index: 0 }), None)
    } else if code.alpha() {
        tokenizer.consume(code);
        (
            State::Next(
                StateName::HtmlFlowContinuationDeclarationInside { kind: HtmlKind::Declaration },
            ),
            None,
        )
    } else {
        (State::Failure, left(code, false))
    }
}

/// What [`comment_open_inside`] does.
pub open spec fn comment_open_inside_step(t: TokenizerView, code: Code) -> (
    TokenizerView,
    StateFnResult,
) {
    if code == Code::Char('-') {
        (
            t.consume(),
            (
                State::Next(
                    StateName::HtmlFlowContinuationDeclarationInside { kind: HtmlKind::Comment },
                ),
                None,
            ),
        )
    } else {
        (t, (State::Failure, remainder(code, false)))
    }
}

/// Behind `<!-`, in front of the second dash of a comment.
///
/// ```markdown
/// <!-|-xxx-->
/// ```
pub fn comment_open_inside(tokenizer: &mut Tokenizer, code: Code) -> (result: StateFnResult)
    requires
        old(tokenizer)@.awaits(StateName::HtmlFlowCommentOpenInside, code),
    ensures
        old(tokenizer)@.stepped(
            StateName::HtmlFlowCommentOpenInside,
            code,
            final(tokenizer)@,
            result,
        ),
        (final(tokenizer)@, result) == comment_open_inside_step(old(tokenizer)@, code),
{
    if code.is('-') {
        tokenizer.consume(code);
        (
            State::Next(
                StateName::HtmlFlowContinuationDeclarationInside { kind: HtmlKind::Comment },
            ),
            None,
        )
    } else {
        (State::Failure, left(code, false))
    }
}

/// What [`cdata_open_inside`] does.
pub open spec fn cdata_open_inside_step(t: TokenizerView, code: Code, index: usize) -> (
    TokenizerView,
    StateFnResult,
) {
    if code == cdata_code(index) && index == 5 {
        (
            t.consume(),
            (State::Next(StateName::HtmlFlowContinuation { kind: HtmlKind::Cdata }), None),
        )
    } else if code == cdata_code(index) {
        (
            t.consume(),
            (State::Next(StateName::HtmlFlowCdataOpenInside { index: (index + 1) as usize }), None),
        )
    } else {
        (t, (State::Failure, remainder(code, false)))
    }
}

/// Behind `<![`, in `CDATA[`.
///
/// ```markdown
/// <![CDA|TA[>&<]]>
/// ```
pub fn cdata_open_inside(tokenizer: &mut Tokenizer, code: Code, index: usize) -> (result:
    StateFnResult)
    requires
        old(tokenizer)@.awaits(StateName::HtmlFlowCdataOpenInside { index }, code),
    ensures
        old(tokenizer)@.stepped(
            StateName::HtmlFlowCdataOpenInside { index },
            code,
            final(tokenizer)@,
            result,
        ),
        (final(tokenizer)@, result) == cdata_open_inside_step(old(tokenizer)@, code, index),
{
    if cdata(code, index) && index == 5 {
        tokenizer.consume(code);
        (State::Next(StateName::HtmlFlowContinuation { kind: HtmlKind::Cdata }), None)
    } else if cdata(code, index) {
        tokenizer.consume(code);
        (State::Next(StateName::HtmlFlowCdataOpenInside { index: index + 1 }), None)
    } else {
        (State::Failure, left(code, false))
    }
}

/// What [`tag_close_start`] does.
pub open spec fn tag_close_start_step(t: TokenizerView, code: Code, interrupt: bool) -> (
    TokenizerView,
    StateFnResult,
) {
    if code.is_alpha() {
        (
            t.consume(),
            (
                State::Next(
                    StateName::HtmlFlowTagName { interrupt, closing: true, name: grown_by(
                        0,
                        code,
                    ) },
                ),
                None,
            ),
        )
    } else {
        (t, (State::Failure, remainder(code, false)))
    }
}

/// Behind `</`, in front of the name of a tag.
///
/// ```markdown
/// </|x>
/// ```
pub fn tag_close_start(tokenizer: &mut Tokenizer, code: Code, interrupt: bool) -> (result:
    StateFnResult)
    requires
        old(tokenizer)@.awaits(StateName::HtmlFlowTagCloseStart { interrupt }, code),
    ensures
        old(tokenizer)@.stepped(
            StateName::HtmlFlowTagCloseStart { interrupt },
            code,
            final(tokenizer)@,
            result,
        ),
        (final(tokenizer)@, result) == tag_close_start_step(old(tokenizer)@, code, interrupt),
{
    if code.alpha() {
        tokenizer.consume(code);
        (
            State::Next(
                StateName::HtmlFlowTagName { interrupt, closing: true, name: grow_by(0, code) },
            ),
            None,
        )
    } else {
        (State::Failure, left(code, false))
    }
}

/// What [`tag_name`] does.
pub open spec fn tag_name_step(
    t: TokenizerView,
    code: Code,
    interrupt: bool,
    closing: bool,
    name: u64,
) -> (
    TokenizerView,
    StateFnResult,
) {
    if (code == Code::Char('-') || code.is_alphanumeric()) {
        (
            t.consume(),
            (
                State::Next(
                    StateName::HtmlFlowTagName { interrupt, closing, name: grown_by(name, code) },
                ),
                None,
            ),
        )
    } else if !(code.is_line_end()
        || code.is_space_or_tab()
        || code == Code::Char('/')
        || code == Code::Char('>')) {
        (t, (State::Failure, remainder(code, false)))
    } else if code != Code::Char('/') && !closing && is_raw_name(name) {
        continuation_step(t, code, HtmlKind::Raw)
    } else if is_block_name(name) && code == Code::Char('/') {
        (t.consume(), (State::Next(StateName::HtmlFlowBasicSelfClosing), None))
    } else if is_block_name(name) {
        continuation_step(t, code, HtmlKind::Basic)
    } else if interrupt {
        (t, (State::Failure, remainder(code, false)))
    } else if closing {
        complete_closing_tag_after_step(t, code)
    } else {
        complete_attribute_name_before_step(t, code)
    }
}

/// In the name of a tag: at its end the name says which kind of HTML
/// begins.
///
/// ```markdown
/// <a|b>
/// ```
pub fn tag_name(
    tokenizer: &mut Tokenizer,
    code: Code,
    interrupt: bool,
    closing: bool,
    name: u64,
) -> (result:
    StateFnResult)
    requires
        old(tokenizer)@.awaits(StateName::HtmlFlowTagName { interrupt, closing, name }, code),
    ensures
        old(tokenizer)@.stepped(
            StateName::HtmlFlowTagName { interrupt, closing, name },
            code,
            final(tokenizer)@,
            result,
        ),
        (final(tokenizer)@, result) == tag_name_step(
            old(tokenizer)@,
            code,
            interrupt,
            closing,
            name,
        ),
{
    if (code.is('-') || code.alphanumeric()) {
        tokenizer.consume(code);
        (
            State::Next(
                StateName::HtmlFlowTagName { interrupt, closing, name: grow_by(name, code) },
            ),
            None,
        )
    } else if !(code.line_end() || code.space_or_tab() || code.is('/') || code.is('>')) {
        (State::Failure, left(code, false))
    } else if !code.is('/') && !closing && raw(name) {
        continuation(tokenizer, code, HtmlKind::Raw)
    } else if block(name) && code.is('/') {
        tokenizer.consume(code);
        (State::Next(StateName::HtmlFlowBasicSelfClosing), None)
    } else if block(name) {
        continuation(tokenizer, code, HtmlKind::Basic)
    } else if interrupt {
        (State::Failure, left(code, false))
    } else if closing {
        complete_closing_tag_after(tokenizer, code)
    } else {
        complete_attribute_name_before(tokenizer, code)
    }
}

/// What [`basic_self_closing`] does.
pub open spec fn basic_self_closing_step(t: TokenizerView, code: Code) -> (
    TokenizerView,
    StateFnResult,
) {
    if code == Code::Char('>') {
        (
            t.consume(),
            (State::Next(StateName::HtmlFlowContinuation { kind: HtmlKind::Basic }), None),
        )
    } else {
        (t, (State::Failure, remainder(code, false)))
    }
}

/// Behind the slash of a tag with the name of a block.
///
/// ```markdown
/// <div/|>
/// ```
pub fn basic_self_closing(tokenizer: &mut Tokenizer, code: Code) -> (result: StateFnResult)
    requires
        old(tokenizer)@.awaits(StateName::HtmlFlowBasicSelfClosing, code),
    ensures
        old(tokenizer)@.stepped(
            StateName::HtmlFlowBasicSelfClosing,
            code,
            final(tokenizer)@,
            result,
        ),
        (final(tokenizer)@, result) == basic_self_closing_step(old(tokenizer)@, code),
{
    if code.is('>') {
        tokenizer.consume(code);
        (State::Next(StateName::HtmlFlowContinuation { kind: HtmlKind::Basic }), None)
    } else {
        (State::Failure, left(code, false))
    }
}

/// What [`complete_closing_tag_after`] does.
pub open spec fn complete_closing_tag_after_step(t: TokenizerView, code: Code) -> (
    TokenizerView,
    StateFnResult,
) {
    if code.is_space_or_tab() {
        (t.consume(), (State::Next(StateName::HtmlFlowCompleteClosingTagAfter), None))
    } else {
        complete_end_step(t, code)
    }
}

/// Behind the name of a closing tag.
///
/// ```markdown
/// </x|>
/// ```
pub fn complete_closing_tag_after(tokenizer: &mut Tokenizer, code: Code) -> (result: StateFnResult)
    requires
        old(tokenizer)@.awaits(StateName::HtmlFlowCompleteClosingTagAfter, code),
    ensures
        old(tokenizer)@.stepped(
            StateName::HtmlFlowCompleteClosingTagAfter,
            code,
            final(tokenizer)@,
            result,
        ),
        (final(tokenizer)@, result) == complete_closing_tag_after_step(old(tokenizer)@, code),
{
    if code.space_or_tab() {
        tokenizer.consume(code);
        (State::Next(StateName::HtmlFlowCompleteClosingTagAfter), None)
    } else {
        complete_end(tokenizer, code)
    }
}

/// What [`complete_attribute_name_before`] does.
pub open spec fn complete_attribute_name_before_step(t: TokenizerView, code: Code) -> (
    TokenizerView,
    StateFnResult,
) {
    if code.is_space_or_tab() {
        (t.consume(), (State::Next(StateName::HtmlFlowCompleteAttributeNameBefore), None))
    } else if code == Code::Char('/') {
        (t.consume(), (State::Next(StateName::HtmlFlowCompleteEnd), None))
    } else if (code == Code::Char(':') || code == Code::Char('_') || code.is_alpha()) {
        (t.consume(), (State::Next(StateName::HtmlFlowCompleteAttributeName), None))
    } else {
        complete_end_step(t, code)
    }
}

/// In front of the name of an attribute, or of the end of the tag.
///
/// ```markdown
/// <x |/>
/// <x |y>
/// ```
pub fn complete_attribute_name_before(tokenizer: &mut Tokenizer, code: Code) -> (result:
    StateFnResult)
    requires
        old(tokenizer)@.awaits(StateName::HtmlFlowCompleteAttributeNameBefore, code),
    ensures
        old(tokenizer)@.stepped(
            StateName::HtmlFlowCompleteAttributeNameBefore,
            code,
            final(tokenizer)@,
            result,
        ),
        (final(tokenizer)@, result) == complete_attribute_name_before_step(old(tokenizer)@, code),
{
    if code.space_or_tab() {
        tokenizer.consume(code);
        (State::Next(StateName::HtmlFlowCompleteAttributeNameBefore), None)
    } else if code.is('/') {
        tokenizer.consume(code);
        (State::Next(StateName::HtmlFlowCompleteEnd), None)
    } else if (code.is(':') || code.is('_') || code.alpha()) {
        tokenizer.consume(code);
        (State::Next(StateName::HtmlFlowCompleteAttributeName), None)
    } else {
        complete_end(tokenizer, code)
    }
}

/// What [`complete_attribute_name`] does.
pub open spec fn complete_attribute_name_step(t: TokenizerView, code: Code) -> (
    TokenizerView,
    StateFnResult,
) {
    if (code == Code::Char('-')
        || code == Code::Char('.')
        || code == Code::Char(':')
        || code == Code::Char('_')
        || code.is_alphanumeric()) {
        (t.consume(), (State::Next(StateName::HtmlFlowCompleteAttributeName), None))
    } else {
        complete_attribute_name_after_step(t, code)
    }
}

/// In the name of an attribute.
///
/// ```markdown
/// <x y|z>
/// ```
pub fn complete_attribute_name(tokenizer: &mut Tokenizer, code: Code) -> (result: StateFnResult)
    requires
        old(tokenizer)@.awaits(StateName::HtmlFlowCompleteAttributeName, code),
    ensures
        old(tokenizer)@.stepped(
            StateName::HtmlFlowCompleteAttributeName,
            code,
            final(tokenizer)@,
            result,
        ),
        (final(tokenizer)@, result) == complete_attribute_name_step(old(tokenizer)@, code),
{
    if (code.is('-') || code.is('.') || code.is(':') || code.is('_') || code.alphanumeric()) {
        tokenizer.consume(code);
        (State::Next(StateName::HtmlFlowCompleteAttributeName), None)
    } else {
        complete_attribute_name_after(tokenizer, code)
    }
}

/// What [`complete_attribute_name_after`] does.
pub open spec fn complete_attribute_name_after_step(t: TokenizerView, code: Code) -> (
    TokenizerView,
    StateFnResult,
) {
    if code.is_space_or_tab() {
        (t.consume(), (State::Next(StateName::HtmlFlowCompleteAttributeNameAfter), None))
    } else if code == Code::Char('=') {
        (t.consume(), (State::Next(StateName::HtmlFlowCompleteAttributeValueBefore), None))
    } else if code == Code::Char('/') {
        (t.consume(), (State::Next(StateName::HtmlFlowCompleteEnd), None))
    } else if (code == Code::Char(':') || code == Code::Char('_') || code.is_alpha()) {
        (t.consume(), (State::Next(StateName::HtmlFlowCompleteAttributeName), None))
    } else {
        complete_end_step(t, code)
    }
}

/// Behind the name of an attribute: a value, another attribute or the end
/// of the tag may follow.
///
/// ```markdown
/// <x y|>
/// <x y|=z>
/// ```
pub fn complete_attribute_name_after(tokenizer: &mut Tokenizer, code: Code) -> (result:
    StateFnResult)
    requires
        old(tokenizer)@.awaits(StateName::HtmlFlowCompleteAttributeNameAfter, code),
    ensures
        old(tokenizer)@.stepped(
            StateName::HtmlFlowCompleteAttributeNameAfter,
            code,
            final(tokenizer)@,
            result,
        ),
        (final(tokenizer)@, result) == complete_attribute_name_after_step(old(tokenizer)@, code),
{
    if code.space_or_tab() {
        tokenizer.consume(code);
        (State::Next(StateName::HtmlFlowCompleteAttributeNameAfter), None)
    } else if code.is('=') {
        tokenizer.consume(code);
        (State::Next(StateName::HtmlFlowCompleteAttributeValueBefore), None)
    } else if code.is('/') {
        tokenizer.consume(code);
        (State::Next(StateName::HtmlFlowCompleteEnd), None)
    } else if (code.is(':') || code.is('_') || code.alpha()) {
        tokenizer.consume(code);
        (State::Next(StateName::HtmlFlowCompleteAttributeName), None)
    } else {
        complete_end(tokenizer, code)
    }
}

/// What [`complete_attribute_value_before`] does.
pub open spec fn complete_attribute_value_before_step(t: TokenizerView, code: Code) -> (
    TokenizerView,
    StateFnResult,
) {
    if (code.is_line_end()
        || code == Code::Char('<')
        || code == Code::Char('=')
        || code == Code::Char('>')
        || code == Code::Char('`')) {
        (t, (State::Failure, remainder(code, false)))
    } else if code.is_space_or_tab() {
        (t.consume(), (State::Next(StateName::HtmlFlowCompleteAttributeValueBefore), None))
    } else if code == Code::Char('"') {
        (
            t.consume(),
            (State::Next(StateName::HtmlFlowCompleteAttributeValueQuoted { marker: '"' }), None),
        )
    } else if code == Code::Char('\'') {
        (
            t.consume(),
            (State::Next(StateName::HtmlFlowCompleteAttributeValueQuoted { marker: '\'' }), None),
        )
    } else {
        (t.consume(), (State::Next(StateName::HtmlFlowCompleteAttributeValueUnquoted), None))
    }
}

/// In front of the value of an attribute.
///
/// ```markdown
/// <x y=|z>
/// <x y=|"z">
/// ```
pub fn complete_attribute_value_before(tokenizer: &mut Tokenizer, code: Code) -> (result:
    StateFnResult)
    requires
        old(tokenizer)@.awaits(StateName::HtmlFlowCompleteAttributeValueBefore, code),
    ensures
        old(tokenizer)@.stepped(
            StateName::HtmlFlowCompleteAttributeValueBefore,
            code,
            final(tokenizer)@,
            result,
        ),
        (final(tokenizer)@, result) == complete_attribute_value_before_step(old(tokenizer)@, code),
{
    if (code.line_end() || code.is('<') || code.is('=') || code.is('>') || code.is('`')) {
        (State::Failure, left(code, false))
    } else if code.space_or_tab() {
        tokenizer.consume(code);
        (State::Next(StateName::HtmlFlowCompleteAttributeValueBefore), None)
    } else if code.is('"') {
        tokenizer.consume(code);
        (State::Next(StateName::HtmlFlowCompleteAttributeValueQuoted { marker: '"' }), None)
    } else if code.is('\'') {
        tokenizer.consume(code);
        (State::Next(StateName::HtmlFlowCompleteAttributeValueQuoted { marker: '\'' }), None)
    } else {
        tokenizer.consume(code);
        (State::Next(StateName::HtmlFlowCompleteAttributeValueUnquoted), None)
    }
}

/// What [`complete_attribute_value_quoted`] does.
pub open spec fn complete_attribute_value_quoted_step(
    t: TokenizerView,
    code: Code,
    marker: char,
) -> (
    TokenizerView,
    StateFnResult,
) {
    if code.is_line_end() {
        (t, (State::Failure, remainder(code, false)))
    } else if code == Code::Char(marker) {
        (t.consume(), (State::Next(StateName::HtmlFlowCompleteAttributeValueQuotedAfter), None))
    } else {
        (
            t.consume(),
            (State::Next(StateName::HtmlFlowCompleteAttributeValueQuoted { marker }), None),
        )
    }
}

/// In the value of an attribute, between quotation marks or apostrophes.
///
/// ```markdown
/// <x y="z|">
/// ```
pub fn complete_attribute_value_quoted(
    tokenizer: &mut Tokenizer,
    code: Code,
    marker: char,
) -> (result:
    StateFnResult)
    requires
        old(tokenizer)@.awaits(StateName::HtmlFlowCompleteAttributeValueQuoted { marker }, code),
    ensures
        old(tokenizer)@.stepped(
            StateName::HtmlFlowCompleteAttributeValueQuoted { marker },
            code,
            final(tokenizer)@,
            result,
        ),
        (final(tokenizer)@, result) == complete_attribute_value_quoted_step(
            old(tokenizer)@,
            code,
            marker,
        ),
{
    if code.line_end() {
        (State::Failure, left(code, false))
    } else if code.is(marker) {
        tokenizer.consume(code);
        (State::Next(StateName::HtmlFlowCompleteAttributeValueQuotedAfter), None)
    } else {
        tokenizer.consume(code);
        (State::Next(StateName::HtmlFlowCompleteAttributeValueQuoted { marker }), None)
    }
}

/// What [`complete_attribute_value_unquoted`] does.
pub open spec fn complete_attribute_value_unquoted_step(t: TokenizerView, code: Code) -> (
    TokenizerView,
    StateFnResult,
) {
    if (code.is_line_end()
        || code.is_space_or_tab()
        || code == Code::Char('"')
        || code == Code::Char('\'')
        || code == Code::Char('<')
        || code == Code::Char('=')
        || code == Code::Char('>')
        || code == Code::Char('`')) {
        complete_attribute_name_after_step(t, code)
    } else {
        (t.consume(), (State::Next(StateName::HtmlFlowCompleteAttributeValueUnquoted), None))
    }
}

/// In the value of an attribute, without quotation marks.
///
/// ```markdown
/// <x y=z|>
/// ```
pub fn complete_attribute_value_unquoted(tokenizer: &mut Tokenizer, code: Code) -> (result:
    StateFnResult)
    requires
        old(tokenizer)@.awaits(StateName::HtmlFlowCompleteAttributeValueUnquoted, code),
    ensures
        old(tokenizer)@.stepped(
            StateName::HtmlFlowCompleteAttributeValueUnquoted,
            code,
            final(tokenizer)@,
            result,
        ),
        (
            final(tokenizer)@,
            result,
        ) == complete_attribute_value_unquoted_step(old(tokenizer)@, code),
{
    if (code.line_end()
        || code.space_or_tab()
        || code.is('"')
        || code.is('\'')
        || code.is('<')
        || code.is('=')
        || code.is('>')
        || code.is('`')) {
        complete_attribute_name_after(tokenizer, code)
    } else {
        tokenizer.consume(code);
        (State::Next(StateName::HtmlFlowCompleteAttributeValueUnquoted), None)
    }
}

/// What [`complete_attribute_value_quoted_after`] does.
pub open spec fn complete_attribute_value_quoted_after_step(t: TokenizerView, code: Code) -> (
    TokenizerView,
    StateFnResult,
) {
    if (code.is_space_or_tab() || code == Code::Char('/') || code == Code::Char('>')) {
        complete_attribute_name_before_step(t, code)
    } else {
        (t, (State::Failure, remainder(code, false)))
    }
}

/// Behind the value of an attribute between quotation marks: whitespace or
/// the end of the tag has to follow.
///
/// ```markdown
/// <x y="z"|>
/// ```
pub fn complete_attribute_value_quoted_after(tokenizer: &mut Tokenizer, code: Code) -> (result:
    StateFnResult)
    requires
        old(tokenizer)@.awaits(StateName::HtmlFlowCompleteAttributeValueQuotedAfter, code),
    ensures
        old(tokenizer)@.stepped(
            StateName::HtmlFlowCompleteAttributeValueQuotedAfter,
            code,
            final(tokenizer)@,
            result,
        ),
        (
            final(tokenizer)@,
            result,
        ) == complete_attribute_value_quoted_after_step(old(tokenizer)@, code),
{
    if (code.space_or_tab() || code.is('/') || code.is('>')) {
        complete_attribute_name_before(tokenizer, code)
    } else {
        (State::Failure, left(code, false))
    }
}

/// What [`complete_end`] does.
pub open spec fn complete_end_step(t: TokenizerView, code: Code) -> (TokenizerView, StateFnResult) {
    if code == Code::Char('>') {
        (t.consume(), (State::Next(StateName::HtmlFlowCompleteAfter), None))
    } else {
        (t, (State::Failure, remainder(code, false)))
    }
}

/// At the `>` of a complete tag.
///
/// ```markdown
/// <x y="z"|>
/// ```
pub fn complete_end(tokenizer: &mut Tokenizer, code: Code) -> (result: StateFnResult)
    requires
        old(tokenizer)@.awaits(StateName::HtmlFlowCompleteEnd, code),
    ensures
        old(tokenizer)@.stepped(StateName::HtmlFlowCompleteEnd, code, final(tokenizer)@, result),
        (final(tokenizer)@, result) == complete_end_step(old(tokenizer)@, code),
{
    if code.is('>') {
        tokenizer.consume(code);
        (State::Next(StateName::HtmlFlowCompleteAfter), None)
    } else {
        (State::Failure, left(code, false))
    }
}

/// What [`complete_after`] does.
pub open spec fn complete_after_step(t: TokenizerView, code: Code) -> (
    TokenizerView,
    StateFnResult,
) {
    if code.is_line_end() {
        continuation_step(t, code, HtmlKind::Complete)
    } else if code.is_space_or_tab() {
        (t.consume(), (State::Next(StateName::HtmlFlowCompleteAfter), None))
    } else {
        (t, (State::Failure, remainder(code, false)))
    }
}

/// Behind a complete tag: nothing but whitespace can stand in the rest of
/// the line.
///
/// ```markdown
/// <x>|
/// ```
pub fn complete_after(tokenizer: &mut Tokenizer, code: Code) -> (result: StateFnResult)
    requires
        old(tokenizer)@.awaits(StateName::HtmlFlowCompleteAfter, code),
    ensures
        old(tokenizer)@.stepped(StateName::HtmlFlowCompleteAfter, code, final(tokenizer)@, result),
        (final(tokenizer)@, result) == complete_after_step(old(tokenizer)@, code),
{
    if code.line_end() {
        continuation(tokenizer, code, HtmlKind::Complete)
    } else if code.space_or_tab() {
        tokenizer.consume(code);
        (State::Next(StateName::HtmlFlowCompleteAfter), None)
    } else {
        (State::Failure, left(code, false))
    }
}

/// What [`continuation`] does.
pub open spec fn continuation_step(t: TokenizerView, code: Code, kind: HtmlKind) -> (
    TokenizerView,
    StateFnResult,
) {
    if code == Code::Char('-') && kind == HtmlKind::Comment {
        (t.consume(), (State::Next(StateName::HtmlFlowContinuationCommentInside { kind }), None))
    } else if code == Code::Char('<') && kind == HtmlKind::Raw {
        (t.consume(), (State::Next(StateName::HtmlFlowContinuationRawTagOpen { kind }), None))
    } else if code == Code::Char('>') && kind == HtmlKind::Declaration {
        (t.consume(), (State::Next(StateName::HtmlFlowContinuationClose), None))
    } else if code == Code::Char('?') && kind == HtmlKind::Instruction {
        (
            t.consume(),
            (State::Next(StateName::HtmlFlowContinuationDeclarationInside { kind }), None),
        )
    } else if code == Code::Char(']') && kind == HtmlKind::Cdata {
        (
            t.consume(),
            (State::Next(StateName::HtmlFlowContinuationCharacterDataInside { kind }), None),
        )
    } else if code.is_eol() && (kind == HtmlKind::Basic || kind == HtmlKind::Complete) {
        blank_line_before_step(
            t.exit(TokenType::HtmlFlowData).attempt(
                AttemptKind::Check,
                Seq::empty(),
                State::Next(StateName::HtmlFlowContinuationAfter),
                State::Next(StateName::HtmlFlowContinuationStart { kind }),
            ),
            code,
        )
    } else if code.is_line_end() {
        continuation_start_step(t.exit(TokenType::HtmlFlowData), code, kind)
    } else {
        (t.consume(), (State::Next(StateName::HtmlFlowContinuation { kind }), None))
    }
}

/// In HTML, looking for what ends it.
///
/// ```markdown
/// <!--x|xx-->
/// ```
pub fn continuation(tokenizer: &mut Tokenizer, code: Code, kind: HtmlKind) -> (result:
    StateFnResult)
    requires
        old(tokenizer)@.awaits(StateName::HtmlFlowContinuation { kind }, code),
    ensures
        old(tokenizer)@.stepped(
            StateName::HtmlFlowContinuation { kind },
            code,
            final(tokenizer)@,
            result,
        ),
        (final(tokenizer)@, result) == continuation_step(old(tokenizer)@, code, kind),
{
    if code.is('-') && kind == HtmlKind::Comment {
        tokenizer.consume(code);
        (State::Next(StateName::HtmlFlowContinuationCommentInside { kind }), None)
    } else if code.is('<') && kind == HtmlKind::Raw {
        tokenizer.consume(code);
        (State::Next(StateName::HtmlFlowContinuationRawTagOpen { kind }), None)
    } else if code.is('>') && kind == HtmlKind::Declaration {
        tokenizer.consume(code);
        (State::Next(StateName::HtmlFlowContinuationClose), None)
    } else if code.is('?') && kind == HtmlKind::Instruction {
        tokenizer.consume(code);
        (State::Next(StateName::HtmlFlowContinuationDeclarationInside { kind }), None)
    } else if code.is(']') && kind == HtmlKind::Cdata {
        tokenizer.consume(code);
        (State::Next(StateName::HtmlFlowContinuationCharacterDataInside { kind }), None)
    } else if code.eol() && (kind == HtmlKind::Basic || kind == HtmlKind::Complete) {
        tokenizer.exit(TokenType::HtmlFlowData);
        tokenizer.check(
            State::Next(StateName::HtmlFlowContinuationAfter),
            State::Next(StateName::HtmlFlowContinuationStart { kind }),
        );
        blank_line_before(tokenizer, code)
    } else if code.line_end() {
        tokenizer.exit(TokenType::HtmlFlowData);
        continuation_start(tokenizer, code, kind)
    } else {
        tokenizer.consume(code);
        (State::Next(StateName::HtmlFlowContinuation { kind }), None)
    }
}

/// What [`continuation_start`] does.
pub open spec fn continuation_start_step(t: TokenizerView, code: Code, kind: HtmlKind) -> (
    TokenizerView,
    StateFnResult,
) {
    if code == Code::Eof {
        continuation_after_step(t, code)
    } else {
        (
            t.enter(TokenType::LineEnding).consume().exit(TokenType::LineEnding),
            (State::Next(StateName::HtmlFlowContinuationBefore { kind }), None),
        )
    }
}

/// At the end of a line of HTML that goes on.
///
/// ```markdown
/// <!--xxx|
/// -->
/// ```
pub fn continuation_start(tokenizer: &mut Tokenizer, code: Code, kind: HtmlKind) -> (result:
    StateFnResult)
    requires
        old(tokenizer)@.awaits(StateName::HtmlFlowContinuationStart { kind }, code),
    ensures
        old(tokenizer)@.stepped(
            StateName::HtmlFlowContinuationStart { kind },
            code,
            final(tokenizer)@,
            result,
        ),
        (final(tokenizer)@, result) == continuation_start_step(old(tokenizer)@, code, kind),
{
    if code.at_end() {
        continuation_after(tokenizer, code)
    } else {
        tokenizer.enter(TokenType::LineEnding);
        tokenizer.consume(code);
        tokenizer.exit(TokenType::LineEnding);
        (State::Next(StateName::HtmlFlowContinuationBefore { kind }), None)
    }
}

/// What [`continuation_before`] does.
pub open spec fn continuation_before_step(t: TokenizerView, code: Code, kind: HtmlKind) -> (
    TokenizerView,
    StateFnResult,
) {
    if code.is_line_end() {
        continuation_start_step(t, code, kind)
    } else {
        continuation_step(t.enter(TokenType::HtmlFlowData), code, kind)
    }
}

/// At the start of a further line of HTML.
///
/// ```markdown
/// <!--xxx
/// |-->
/// ```
pub fn continuation_before(tokenizer: &mut Tokenizer, code: Code, kind: HtmlKind) -> (result:
    StateFnResult)
    requires
        old(tokenizer)@.awaits(StateName::HtmlFlowContinuationBefore { kind }, code),
    ensures
        old(tokenizer)@.stepped(
            StateName::HtmlFlowContinuationBefore { kind },
            code,
            final(tokenizer)@,
            result,
        ),
        (final(tokenizer)@, result) == continuation_before_step(old(tokenizer)@, code, kind),
{
    if code.line_end() {
        continuation_start(tokenizer, code, kind)
    } else {
        tokenizer.enter(TokenType::HtmlFlowData);
        continuation(tokenizer, code, kind)
    }
}

/// What [`continuation_comment_inside`] does.
pub open spec fn continuation_comment_inside_step(t: TokenizerView, code: Code, kind: HtmlKind) -> (
    TokenizerView,
    StateFnResult,
) {
    if code == Code::Char('-') {
        (
            t.consume(),
            (State::Next(StateName::HtmlFlowContinuationDeclarationInside { kind }), None),
        )
    } else {
        continuation_step(t, code, kind)
    }
}

/// In a comment, behind a dash.
///
/// ```markdown
/// <!--xxx-|->
/// ```
pub fn continuation_comment_inside(
    tokenizer: &mut Tokenizer,
    code: Code,
    kind: HtmlKind,
) -> (result:
    StateFnResult)
    requires
        old(tokenizer)@.awaits(StateName::HtmlFlowContinuationCommentInside { kind }, code),
    ensures
        old(tokenizer)@.stepped(
            StateName::HtmlFlowContinuationCommentInside { kind },
            code,
            final(tokenizer)@,
            result,
        ),
        (final(tokenizer)@, result) == continuation_comment_inside_step(
            old(tokenizer)@,
            code,
            kind,
        ),
{
    if code.is('-') {
        tokenizer.consume(code);
        (State::Next(StateName::HtmlFlowContinuationDeclarationInside { kind }), None)
    } else {
        continuation(tokenizer, code, kind)
    }
}

/// What [`continuation_raw_tag_open`] does.
pub open spec fn continuation_raw_tag_open_step(t: TokenizerView, code: Code, kind: HtmlKind) -> (
    TokenizerView,
    StateFnResult,
) {
    if code == Code::Char('/') {
        (
            t.consume(),
            (State::Next(StateName::HtmlFlowContinuationRawEndTag { kind, name: 0 }), None),
        )
    } else {
        continuation_step(t, code, kind)
    }
}

/// In raw content, behind `<`.
///
/// ```markdown
/// <script>console.log(1)<|/script>
/// ```
pub fn continuation_raw_tag_open(tokenizer: &mut Tokenizer, code: Code, kind: HtmlKind) -> (result:
    StateFnResult)
    requires
        old(tokenizer)@.awaits(StateName::HtmlFlowContinuationRawTagOpen { kind }, code),
    ensures
        old(tokenizer)@.stepped(
            StateName::HtmlFlowContinuationRawTagOpen { kind },
            code,
            final(tokenizer)@,
            result,
        ),
        (final(tokenizer)@, result) == continuation_raw_tag_open_step(old(tokenizer)@, code, kind),
{
    if code.is('/') {
        tokenizer.consume(code);
        (State::Next(StateName::HtmlFlowContinuationRawEndTag { kind, name: 0 }), None)
    } else {
        continuation(tokenizer, code, kind)
    }
}

/// What [`continuation_raw_end_tag`] does.
pub open spec fn continuation_raw_end_tag_step(
    t: TokenizerView,
    code: Code,
    kind: HtmlKind,
    name: u64,
) -> (
    TokenizerView,
    StateFnResult,
) {
    if code == Code::Char('>') && is_raw_name(name) {
        (t.consume(), (State::Next(StateName::HtmlFlowContinuationClose), None))
    } else if code.is_alpha() {
        (
            t.consume(),
            (
                State::Next(
                    StateName::HtmlFlowContinuationRawEndTag { kind, name: grown_by(name, code) },
                ),
                None,
            ),
        )
    } else {
        continuation_step(t, code, kind)
    }
}

/// In raw content, in the name of a closing tag.
///
/// ```markdown
/// <script>console.log(1)</sc|ript>
/// ```
pub fn continuation_raw_end_tag(
    tokenizer: &mut Tokenizer,
    code: Code,
    kind: HtmlKind,
    name: u64,
) -> (result:
    StateFnResult)
    requires
        old(tokenizer)@.awaits(StateName::HtmlFlowContinuationRawEndTag { kind, name }, code),
    ensures
        old(tokenizer)@.stepped(
            StateName::HtmlFlowContinuationRawEndTag { kind, name },
            code,
            final(tokenizer)@,
            result,
        ),
        (final(tokenizer)@, result) == continuation_raw_end_tag_step(
            old(tokenizer)@,
            code,
            kind,
            name,
        ),
{
    if code.is('>') && raw(name) {
        tokenizer.consume(code);
        (State::Next(StateName::HtmlFlowContinuationClose), None)
    } else if code.alpha() {
        tokenizer.consume(code);
        (
            State::Next(
                StateName::HtmlFlowContinuationRawEndTag { kind, name: grow_by(name, code) },
            ),
            None,
        )
    } else {
        continuation(tokenizer, code, kind)
    }
}

/// What [`continuation_character_data_inside`] does.
pub open spec fn continuation_character_data_inside_step(
    t: TokenizerView,
    code: Code,
    kind: HtmlKind,
) -> (
    TokenizerView,
    StateFnResult,
) {
    if code == Code::Char(']') {
        (
            t.consume(),
            (State::Next(StateName::HtmlFlowContinuationDeclarationInside { kind }), None),
        )
    } else {
        continuation_step(t, code, kind)
    }
}

/// In character data, behind `]`.
///
/// ```markdown
/// <![CDATA[>&<]|]>
/// ```
pub fn continuation_character_data_inside(
    tokenizer: &mut Tokenizer,
    code: Code,
    kind: HtmlKind,
) -> (result:
    StateFnResult)
    requires
        old(tokenizer)@.awaits(StateName::HtmlFlowContinuationCharacterDataInside { kind }, code),
    ensures
        old(tokenizer)@.stepped(
            StateName::HtmlFlowContinuationCharacterDataInside { kind },
            code,
            final(tokenizer)@,
            result,
        ),
        (final(tokenizer)@, result) == continuation_character_data_inside_step(
            old(tokenizer)@,
            code,
            kind,
        ),
{
    if code.is(']') {
        tokenizer.consume(code);
        (State::Next(StateName::HtmlFlowContinuationDeclarationInside { kind }), None)
    } else {
        continuation(tokenizer, code, kind)
    }
}

/// What [`continuation_declaration_inside`] does.
pub open spec fn continuation_declaration_inside_step(
    t: TokenizerView,
    code: Code,
    kind: HtmlKind,
) -> (
    TokenizerView,
    StateFnResult,
) {
    if code == Code::Char('>') {
        (t.consume(), (State::Next(StateName::HtmlFlowContinuationClose), None))
    } else if code == Code::Char('-') && kind == HtmlKind::Comment {
        (
            t.consume(),
            (State::Next(StateName::HtmlFlowContinuationDeclarationInside { kind }), None),
        )
    } else {
        continuation_step(t, code, kind)
    }
}

/// In front of the `>` that ends a comment, an instruction, a declaration
/// or character data.
///
/// ```markdown
/// <!--xxx--|>
/// ```
pub fn continuation_declaration_inside(
    tokenizer: &mut Tokenizer,
    code: Code,
    kind: HtmlKind,
) -> (result:
    StateFnResult)
    requires
        old(tokenizer)@.awaits(StateName::HtmlFlowContinuationDeclarationInside { kind }, code),
    ensures
        old(tokenizer)@.stepped(
            StateName::HtmlFlowContinuationDeclarationInside { kind },
            code,
            final(tokenizer)@,
            result,
        ),
        (final(tokenizer)@, result) == continuation_declaration_inside_step(
            old(tokenizer)@,
            code,
            kind,
        ),
{
    if code.is('>') {
        tokenizer.consume(code);
        (State::Next(StateName::HtmlFlowContinuationClose), None)
    } else if code.is('-') && kind == HtmlKind::Comment {
        tokenizer.consume(code);
        (State::Next(StateName::HtmlFlowContinuationDeclarationInside { kind }), None)
    } else {
        continuation(tokenizer, code, kind)
    }
}

/// What [`continuation_close`] does.
pub open spec fn continuation_close_step(t: TokenizerView, code: Code) -> (
    TokenizerView,
    StateFnResult,
) {
    if code.is_line_end() {
        continuation_after_step(t.exit(TokenType::HtmlFlowData), code)
    } else {
        (t.consume(), (State::Next(StateName::HtmlFlowContinuationClose), None))
    }
}

/// Behind what ends the HTML: it goes on to the end of the line.
///
/// ```markdown
/// <!doctype>|
/// ```
pub fn continuation_close(tokenizer: &mut Tokenizer, code: Code) -> (result: StateFnResult)
    requires
        old(tokenizer)@.awaits(StateName::HtmlFlowContinuationClose, code),
    ensures
        old(tokenizer)@.stepped(
            StateName::HtmlFlowContinuationClose,
            code,
            final(tokenizer)@,
            result,
        ),
        (final(tokenizer)@, result) == continuation_close_step(old(tokenizer)@, code),
{
    if code.line_end() {
        tokenizer.exit(TokenType::HtmlFlowData);
        continuation_after(tokenizer, code)
    } else {
        tokenizer.consume(code);
        (State::Next(StateName::HtmlFlowContinuationClose), None)
    }
}

/// What [`continuation_after`] does.
pub open spec fn continuation_after_step(t: TokenizerView, code: Code) -> (
    TokenizerView,
    StateFnResult,
) {
    (t.exit(TokenType::HtmlFlow), (State::Success, remainder(code, false)))
}

/// After HTML.
///
/// ```markdown
/// <!doctype>|
/// ```
pub fn continuation_after(tokenizer: &mut Tokenizer, code: Code) -> (result: StateFnResult)
    requires
        old(tokenizer)@.awaits(StateName::HtmlFlowContinuationAfter, code),
    ensures
        old(tokenizer)@.stepped(
            StateName::HtmlFlowContinuationAfter,
            code,
            final(tokenizer)@,
            result,
        ),
        (final(tokenizer)@, result) == continuation_after_step(old(tokenizer)@, code),
{
    tokenizer.exit(TokenType::HtmlFlow);
    (State::Success, left(code, false))
}

/// What [`blank_line_before`] does.
pub open spec fn blank_line_before_step(t: TokenizerView, code: Code) -> (
    TokenizerView,
    StateFnResult,
) {
    (
        t.enter(TokenType::LineEnding).consume().exit(TokenType::LineEnding),
        (State::Next(StateName::BlankLineStart), None),
    )
}

/// Looking ahead, at a line ending in HTML that a blank line ends.
///
/// ```markdown
/// <div>|
///
/// ```
pub fn blank_line_before(tokenizer: &mut Tokenizer, code: Code) -> (result: StateFnResult)
    requires
        old(tokenizer)@.awaits(StateName::HtmlFlowBlankLineBefore, code),
    ensures
        old(tokenizer)@.stepped(
            StateName::HtmlFlowBlankLineBefore,
            code,
            final(tokenizer)@,
            result,
        ),
        (final(tokenizer)@, result) == blank_line_before_step(old(tokenizer)@, code),
{
    tokenizer.enter(TokenType::LineEnding);
    tokenizer.consume(code);
    tokenizer.exit(TokenType::LineEnding);
    (State::Next(StateName::BlankLineStart), None)
}

/// What the state function of `name` does, for the states of this file.
pub open spec fn step(name: StateName, t: TokenizerView, code: Code) -> (
    TokenizerView,
    StateFnResult,
) {
    match name {
        StateName::HtmlFlowStart => start_step(t, code),
        StateName::HtmlFlowInterrupt => interrupt_step(t, code),
        StateName::HtmlFlowPrefix { interrupt, seen } => prefix_step(t, code, interrupt, seen),
        StateName::HtmlFlowOpen { interrupt } => open_step(t, code, interrupt),
        StateName::HtmlFlowDeclarationOpen => declaration_open_step(t, code),
        StateName::HtmlFlowCommentOpenInside => comment_open_inside_step(t, code),
        StateName::HtmlFlowCdataOpenInside { index } => cdata_open_inside_step(t, code, index),
        StateName::HtmlFlowTagCloseStart { interrupt } => tag_close_start_step(t, code, interrupt),
        StateName::HtmlFlowTagName { interrupt, closing, name } =>
            tag_name_step(t, code, interrupt, closing, name),
        StateName::HtmlFlowBasicSelfClosing => basic_self_closing_step(t, code),
        StateName::HtmlFlowCompleteClosingTagAfter => complete_closing_tag_after_step(t, code),
        StateName::HtmlFlowCompleteAttributeNameBefore =>
            complete_attribute_name_before_step(t, code),
        StateName::HtmlFlowCompleteAttributeName => complete_attribute_name_step(t, code),
        StateName::HtmlFlowCompleteAttributeNameAfter =>
            complete_attribute_name_after_step(t, code),
        StateName::HtmlFlowCompleteAttributeValueBefore =>
            complete_attribute_value_before_step(t, code),
        StateName::HtmlFlowCompleteAttributeValueQuoted { marker } =>
            complete_attribute_value_quoted_step(t, code, marker),
        StateName::HtmlFlowCompleteAttributeValueUnquoted =>
            complete_attribute_value_unquoted_step(t, code),
        StateName::HtmlFlowCompleteAttributeValueQuotedAfter =>
            complete_attribute_value_quoted_after_step(t, code),
        StateName::HtmlFlowCompleteEnd => complete_end_step(t, code),
        StateName::HtmlFlowCompleteAfter => complete_after_step(t, code),
        StateName::HtmlFlowContinuation { kind } => continuation_step(t, code, kind),
        StateName::HtmlFlowContinuationStart { kind } => continuation_start_step(t, code, kind),
        StateName::HtmlFlowContinuationBefore { kind } => continuation_before_step(t, code, kind),
        StateName::HtmlFlowContinuationCommentInside { kind } =>
            continuation_comment_inside_step(t, code, kind),
        StateName::HtmlFlowContinuationRawTagOpen { kind } =>
            continuation_raw_tag_open_step(t, code, kind),
        StateName::HtmlFlowContinuationRawEndTag { kind, name } =>
            continuation_raw_end_tag_step(t, code, kind, name),
        StateName::HtmlFlowContinuationCharacterDataInside { kind } =>
            continuation_character_data_inside_step(t, code, kind),
        StateName::HtmlFlowContinuationDeclarationInside { kind } =>
            continuation_declaration_inside_step(t, code, kind),
        StateName::HtmlFlowContinuationClose => continuation_close_step(t, code),
        StateName::HtmlFlowContinuationAfter => continuation_after_step(t, code),
        StateName::HtmlFlowBlankLineBefore => blank_line_before_step(t, code),
        _ => (t, (State::Failure, None)),
    }
}

/// Run the state function of `name`, which is a state of this file.
pub fn call(tokenizer: &mut Tokenizer, name: StateName, code: Code) -> (result: StateFnResult)
    requires
        old(tokenizer)@.awaits(name, code),
        name.family() == Family::HtmlFlow,
    ensures
        old(tokenizer)@.stepped(name, code, final(tokenizer)@, result),
        (final(tokenizer)@, result) == step(name, old(tokenizer)@, code),
{
    match name {
        StateName::HtmlFlowStart => start(tokenizer, code),
        StateName::HtmlFlowInterrupt => interrupt(tokenizer, code),
        StateName::HtmlFlowPrefix { interrupt, seen } => prefix(tokenizer, code, interrupt, seen),
        StateName::HtmlFlowOpen { interrupt } => open(tokenizer, code, interrupt),
        StateName::HtmlFlowDeclarationOpen => declaration_open(tokenizer, code),
        StateName::HtmlFlowCommentOpenInside => comment_open_inside(tokenizer, code),
        StateName::HtmlFlowCdataOpenInside { index } => cdata_open_inside(tokenizer, code, index),
        StateName::HtmlFlowTagCloseStart { interrupt } =>
            tag_close_start(tokenizer, code, interrupt),
        StateName::HtmlFlowTagName { interrupt, closing, name } =>
            tag_name(tokenizer, code, interrupt, closing, name),
        StateName::HtmlFlowBasicSelfClosing => basic_self_closing(tokenizer, code),
        StateName::HtmlFlowCompleteClosingTagAfter => complete_closing_tag_after(tokenizer, code),
        StateName::HtmlFlowCompleteAttributeNameBefore =>
            complete_attribute_name_before(tokenizer, code),
        StateName::HtmlFlowCompleteAttributeName => complete_attribute_name(tokenizer, code),
        StateName::HtmlFlowCompleteAttributeNameAfter =>
            complete_attribute_name_after(tokenizer, code),
        StateName::HtmlFlowCompleteAttributeValueBefore =>
            complete_attribute_value_before(tokenizer, code),
        StateName::HtmlFlowCompleteAttributeValueQuoted { marker } =>
            complete_attribute_value_quoted(tokenizer, code, marker),
        StateName::HtmlFlowCompleteAttributeValueUnquoted =>
            complete_attribute_value_unquoted(tokenizer, code),
        StateName::HtmlFlowCompleteAttributeValueQuotedAfter =>
            complete_attribute_value_quoted_after(tokenizer, code),
        StateName::HtmlFlowCompleteEnd => complete_end(tokenizer, code),
        StateName::HtmlFlowCompleteAfter => complete_after(tokenizer, code),
        StateName::HtmlFlowContinuation { kind } => continuation(tokenizer, code, kind),
        StateName::HtmlFlowContinuationStart { kind } => continuation_start(tokenizer, code, kind),
        StateName::HtmlFlowContinuationBefore { kind } =>
            continuation_before(tokenizer, code, kind),
        StateName::HtmlFlowContinuationCommentInside { kind } =>
            continuation_comment_inside(tokenizer, code, kind),
        StateName::HtmlFlowContinuationRawTagOpen { kind } =>
            continuation_raw_tag_open(tokenizer, code, kind),
        StateName::HtmlFlowContinuationRawEndTag { kind, name } =>
            continuation_raw_end_tag(tokenizer, code, kind, name),
        StateName::HtmlFlowContinuationCharacterDataInside { kind } =>
            continuation_character_data_inside(tokenizer, code, kind),
        StateName::HtmlFlowContinuationDeclarationInside { kind } =>
            continuation_declaration_inside(tokenizer, code, kind),
        StateName::HtmlFlowContinuationClose => continuation_close(tokenizer, code),
        StateName::HtmlFlowContinuationAfter => continuation_after(tokenizer, code),
        StateName::HtmlFlowBlankLineBefore => blank_line_before(tokenizer, code),
        _ => (State::Failure, None),
    }
}

} // verus!
