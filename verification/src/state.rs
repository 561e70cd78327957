//! The states of the machine, and what is known of each before it runs.

use vstd::prelude::*;
use crate::code::Code;
use crate::event::TokenType;

verus! {

/// The name of a state function, with the values that the state carries.
#[derive(Clone, Copy, Debug, PartialEq, Eq, Structural)]
pub enum StateName {
    FlowStart,
    FlowBlankLineAfter,
    FlowInitialBefore,
    FlowAfter,
    FlowBefore,
    FlowBeforeAfterPrefix,
    FlowContentBefore,
    /// In content; `previous` is the event that opened the current chunk.
    FlowContent { previous: usize },
    FlowContentContinue { previous: usize },
    FlowContentEnd,
    FlowContinuationConstruct,
    FlowContinuationInitialBefore,
    FlowContinuationBefore,
    FlowContinuationAfterPrefix,
    ParagraphStart,
    ParagraphLineStart,
    ParagraphData,
    WhitespaceStart { token_type: TokenType },
    WhitespaceInside { token_type: TokenType },
    BlankLineStart,
    BlankLineAfter,
    ThematicBreakStart,
    /// In a thematic break of `marker`, of which `size` were seen.
    ThematicBreakAtBreak { marker: char, size: usize },
    ThematicBreakSequence { marker: char, size: usize },
    ThematicBreakWhitespace { marker: char, size: usize },
    CodeIndentedStart,
    /// In the indent, of which `size` columns were seen.
    CodeIndentedIndent { size: usize },
    CodeIndentedAtBreak,
    CodeIndentedContent,
    CodeIndentedAfter,
    CodeIndentedFurtherStart,
    CodeIndentedFurtherIndent { size: usize },
    CodeFencedStart,
    CodeFencedBeforeSequenceOpen,
    /// In fenced code whose fence is made of `marker`, `size` of them, with
    /// `prefix` columns of whitespace in front.
    CodeFencedSequenceOpen { marker: char, size: usize, prefix: usize },
    CodeFencedInfoBeforeWhitespace { marker: char, size: usize, prefix: usize },
    CodeFencedInfoBefore { marker: char, size: usize, prefix: usize },
    CodeFencedInfo { marker: char, size: usize, prefix: usize },
    CodeFencedMetaBeforeWhitespace { marker: char, size: usize, prefix: usize },
    CodeFencedMeta { marker: char, size: usize, prefix: usize },
    CodeFencedAtBreak { marker: char, size: usize, prefix: usize },
    CodeFencedContentBefore { marker: char, size: usize, prefix: usize },
    CodeFencedContentStart { marker: char, size: usize, prefix: usize },
    CodeFencedContentPrefix { marker: char, size: usize, prefix: usize, seen: usize },
    CodeFencedContentBegin { marker: char, size: usize, prefix: usize },
    CodeFencedContent { marker: char, size: usize, prefix: usize },
    CodeFencedAfter,
    CodeFencedCloseStart { marker: char, size: usize },
    CodeFencedCloseBefore { marker: char, size: usize },
    CodeFencedClosePrefix { marker: char, size: usize, seen: usize },
    CodeFencedCloseSequence { marker: char, size: usize, count: usize },
    CodeFencedCloseAfter,
    HtmlFlowStart,
    HtmlFlowInterrupt,
    /// In HTML; `interrupt` says whether it would end content that
    /// stands in front of it.
    HtmlFlowPrefix { interrupt: bool, seen: usize },
    HtmlFlowOpen { interrupt: bool },
    HtmlFlowDeclarationOpen,
    HtmlFlowCommentOpenInside,
    HtmlFlowCdataOpenInside { index: usize },
    HtmlFlowTagCloseStart { interrupt: bool },
    /// In the name of a tag; `name` holds its characters, and `closing`
    /// says whether the tag closes an element.
    HtmlFlowTagName { interrupt: bool, closing: bool, name: u64 },
    HtmlFlowBasicSelfClosing,
    HtmlFlowCompleteClosingTagAfter,
    HtmlFlowCompleteAttributeNameBefore,
    HtmlFlowCompleteAttributeName,
    HtmlFlowCompleteAttributeNameAfter,
    HtmlFlowCompleteAttributeValueBefore,
    HtmlFlowCompleteAttributeValueQuoted { marker: char },
    HtmlFlowCompleteAttributeValueUnquoted,
    HtmlFlowCompleteAttributeValueQuotedAfter,
    HtmlFlowCompleteEnd,
    HtmlFlowCompleteAfter,
    HtmlFlowContinuation { kind: HtmlKind },
    HtmlFlowContinuationStart { kind: HtmlKind },
    HtmlFlowContinuationBefore { kind: HtmlKind },
    HtmlFlowContinuationCommentInside { kind: HtmlKind },
    HtmlFlowContinuationRawTagOpen { kind: HtmlKind },
    HtmlFlowContinuationRawEndTag { kind: HtmlKind, name: u64 },
    HtmlFlowContinuationCharacterDataInside { kind: HtmlKind },
    HtmlFlowContinuationDeclarationInside { kind: HtmlKind },
    HtmlFlowContinuationClose,
    HtmlFlowContinuationAfter,
    HtmlFlowBlankLineBefore,
    DefinitionStart,
    /// In the label of a definition, of which `size` codes were seen;
    /// `data` says whether one of them was no whitespace.
    DefinitionLabelAtBreak { size: usize, data: bool },
    DefinitionLabelLineStart { size: usize, data: bool },
    DefinitionLabelLineWhitespace { size: usize, data: bool },
    DefinitionLabelInside { size: usize, data: bool },
    DefinitionLabelEscape { size: usize, data: bool },
    DefinitionLabelAfter,
    DefinitionMarkerAfter,
    DefinitionDestinationBeforeWhitespace { seen_eol: bool },
    DefinitionDestinationBeforeLine,
    DefinitionDestinationStart,
    DefinitionDestinationLiteral,
    DefinitionDestinationLiteralInside,
    DefinitionDestinationLiteralEscape,
    /// In a destination without angle brackets, inside `depth` parentheses.
    DefinitionDestinationRaw { depth: usize },
    DefinitionDestinationRawEscape { depth: usize },
    DefinitionDestinationAfter,
    DefinitionAfter,
    DefinitionAfterWhitespace,
    DefinitionTitleStart,
    DefinitionTitleBeforeWhitespace { seen_eol: bool },
    DefinitionTitleBeforeLine,
    DefinitionTitleBegin,
    /// In a title that `closer` ends.
    DefinitionTitleAtBreak { closer: char },
    DefinitionTitleLineStart { closer: char },
    DefinitionTitleLineWhitespace { closer: char },
    DefinitionTitleInside { closer: char },
    DefinitionTitleEscape { closer: char },
    DefinitionTitleAfter,
    DefinitionTitleAfterWhitespace,
    HeadingSetextStart,
    HeadingAtxStart,
    /// In the opening sequence, of which `rank` number signs were seen.
    HeadingAtxSequenceOpen { rank: usize },
    HeadingAtxBefore,
    HeadingAtxTextStart,
    HeadingAtxTextBegin,
    HeadingAtxClosingOnly,
    HeadingAtxData,
    HeadingAtxDataEnd,
    HeadingAtxDataGo,
    HeadingAtxClosingWhitespace,
    HeadingAtxClosingSequence,
    HeadingAtxFinalWhitespace,
    HeadingAtxTrailingStart,
    HeadingAtxTrailingWhitespace,
    HeadingAtxTrailingSequence,
    HeadingAtxTrailingEnd,
}

/// The kinds of HTML in flow, which differ in how they begin and end.
#[derive(Clone, Copy, Debug, PartialEq, Eq, Structural)]
pub enum HtmlKind {
    /// `<script>`, `<pre>`, `<style>` or `<textarea>`, up to the tag that
    /// closes one of them.
    Raw,
    /// A comment: `<!--`, up to `-->`.
    Comment,
    /// An instruction: `<?`, up to `?>`.
    Instruction,
    /// A declaration: `<!` and a letter, up to `>`.
    Declaration,
    /// Character data: `<![CDATA[`, up to `]]>`.
    Cdata,
    /// A tag whose name is that of a block, up to a blank line.
    Basic,
    /// Any other tag that stands complete and alone in its line, up to a
    /// blank line.
    Complete,
}

/// The constructs and content types that the states belong to.
#[derive(Clone, Copy, Debug, PartialEq, Eq, Structural)]
pub enum Family {
    Flow,
    Paragraph,
    Whitespace,
    BlankLine,
    ThematicBreak,
    CodeIndented,
    CodeFenced,
    HtmlFlow,
    Definition,
    HeadingSetext,
    HeadingAtx,
}

/// What a state function hands back.
#[derive(Clone, Copy, Debug, PartialEq, Eq, Structural)]
pub enum State {
    /// The construct matched.
    Success,
    /// The construct did not match.
    Failure,
    /// More input is needed: feed the next code to this state.
    Next(StateName),
}

/// The next state, and the code that was fed if it was not used up.
pub type StateFnResult = (State, Option<Code>);

/// The codes that a state can be fed.
#[derive(Clone, Copy, Debug, PartialEq, Eq, Structural)]
pub enum CodeClass {
    /// Any code.
    Any,
    /// A line ending or the end of the input.
    LineEnd,
    /// A line ending.
    Eol,
}

impl CodeClass {
    pub open spec fn holds(self, code: Code) -> bool {
        match self {
            CodeClass::Any => true,
            CodeClass::LineEnd => code.is_line_end(),
            CodeClass::Eol => code.is_eol(),
        }
    }
}

impl StateName {
    /// The construct or content type that the state belongs to.
    pub open spec fn family(self) -> Family {
        match self {
            StateName::FlowStart
            | StateName::FlowBlankLineAfter
            | StateName::FlowInitialBefore
            | StateName::FlowAfter
            | StateName::FlowBefore
            | StateName::FlowBeforeAfterPrefix
            | StateName::FlowContentBefore
            | StateName::FlowContent { .. }
            | StateName::FlowContentContinue { .. }
            | StateName::FlowContentEnd
            | StateName::FlowContinuationConstruct
            | StateName::FlowContinuationInitialBefore
            | StateName::FlowContinuationBefore
            | StateName::FlowContinuationAfterPrefix => Family::Flow,
            StateName::ParagraphStart
            | StateName::ParagraphLineStart
            | StateName::ParagraphData => Family::Paragraph,
            StateName::WhitespaceStart { .. }
            | StateName::WhitespaceInside { .. } => Family::Whitespace,
            StateName::BlankLineStart
            | StateName::BlankLineAfter => Family::BlankLine,
            StateName::ThematicBreakStart
            | StateName::ThematicBreakAtBreak { .. }
            | StateName::ThematicBreakSequence { .. }
            | StateName::ThematicBreakWhitespace { .. } => Family::ThematicBreak,
            StateName::CodeIndentedStart
            | StateName::CodeIndentedIndent { .. }
            | StateName::CodeIndentedAtBreak
            | StateName::CodeIndentedContent
            | StateName::CodeIndentedAfter
            | StateName::CodeIndentedFurtherStart
            | StateName::CodeIndentedFurtherIndent { .. } => Family::CodeIndented,
            StateName::CodeFencedStart
            | StateName::CodeFencedBeforeSequenceOpen
            | StateName::CodeFencedSequenceOpen { .. }
            | StateName::CodeFencedInfoBeforeWhitespace { .. }
            | StateName::CodeFencedInfoBefore { .. }
            | StateName::CodeFencedInfo { .. }
            | StateName::CodeFencedMetaBeforeWhitespace { .. }
            | StateName::CodeFencedMeta { .. }
            | StateName::CodeFencedAtBreak { .. }
            | StateName::CodeFencedContentBefore { .. }
            | StateName::CodeFencedContentStart { .. }
            | StateName::CodeFencedContentPrefix { .. }
            | StateName::CodeFencedContentBegin { .. }
            | StateName::CodeFencedContent { .. }
            | StateName::CodeFencedAfter
            | StateName::CodeFencedCloseStart { .. }
            | StateName::CodeFencedCloseBefore { .. }
            | StateName::CodeFencedClosePrefix { .. }
            | StateName::CodeFencedCloseSequence { .. }
            | StateName::CodeFencedCloseAfter => Family::CodeFenced,
            StateName::HtmlFlowStart
            | StateName::HtmlFlowInterrupt
            | StateName::HtmlFlowPrefix { .. }
            | StateName::HtmlFlowOpen { .. }
            | StateName::HtmlFlowDeclarationOpen
            | StateName::HtmlFlowCommentOpenInside
            | StateName::HtmlFlowCdataOpenInside { .. }
            | StateName::HtmlFlowTagCloseStart { .. }
            | StateName::HtmlFlowTagName { .. }
            | StateName::HtmlFlowBasicSelfClosing
            | StateName::HtmlFlowCompleteClosingTagAfter
            | StateName::HtmlFlowCompleteAttributeNameBefore
            | StateName::HtmlFlowCompleteAttributeName
            | StateName::HtmlFlowCompleteAttributeNameAfter
            | StateName::HtmlFlowCompleteAttributeValueBefore
            | StateName::HtmlFlowCompleteAttributeValueQuoted { .. }
            | StateName::HtmlFlowCompleteAttributeValueUnquoted
            | StateName::HtmlFlowCompleteAttributeValueQuotedAfter
            | StateName::HtmlFlowCompleteEnd
            | StateName::HtmlFlowCompleteAfter
            | StateName::HtmlFlowContinuation { .. }
            | StateName::HtmlFlowContinuationStart { .. }
            | StateName::HtmlFlowContinuationBefore { .. }
            | StateName::HtmlFlowContinuationCommentInside { .. }
            | StateName::HtmlFlowContinuationRawTagOpen { .. }
            | StateName::HtmlFlowContinuationRawEndTag { .. }
            | StateName::HtmlFlowContinuationCharacterDataInside { .. }
            | StateName::HtmlFlowContinuationDeclarationInside { .. }
            | StateName::HtmlFlowContinuationClose
            | StateName::HtmlFlowContinuationAfter
            | StateName::HtmlFlowBlankLineBefore => Family::HtmlFlow,
            StateName::DefinitionStart
            | StateName::DefinitionLabelAtBreak { .. }
            | StateName::DefinitionLabelLineStart { .. }
            | StateName::DefinitionLabelLineWhitespace { .. }
            | StateName::DefinitionLabelInside { .. }
            | StateName::DefinitionLabelEscape { .. }
            | StateName::DefinitionLabelAfter
            | StateName::DefinitionMarkerAfter
            | StateName::DefinitionDestinationBeforeWhitespace { .. }
            | StateName::DefinitionDestinationBeforeLine
            | StateName::DefinitionDestinationStart
            | StateName::DefinitionDestinationLiteral
            | StateName::DefinitionDestinationLiteralInside
            | StateName::DefinitionDestinationLiteralEscape
            | StateName::DefinitionDestinationRaw { .. }
            | StateName::DefinitionDestinationRawEscape { .. }
            | StateName::DefinitionDestinationAfter
            | StateName::DefinitionAfter
            | StateName::DefinitionAfterWhitespace
            | StateName::DefinitionTitleStart
            | StateName::DefinitionTitleBeforeWhitespace { .. }
            | StateName::DefinitionTitleBeforeLine
            | StateName::DefinitionTitleBegin
            | StateName::DefinitionTitleAtBreak { .. }
            | StateName::DefinitionTitleLineStart { .. }
            | StateName::DefinitionTitleLineWhitespace { .. }
            | StateName::DefinitionTitleInside { .. }
            | StateName::DefinitionTitleEscape { .. }
            | StateName::DefinitionTitleAfter
            | StateName::DefinitionTitleAfterWhitespace => Family::Definition,
            StateName::HeadingSetextStart => Family::HeadingSetext,
            StateName::HeadingAtxStart
            | StateName::HeadingAtxSequenceOpen { .. }
            | StateName::HeadingAtxBefore
            | StateName::HeadingAtxTextStart
            | StateName::HeadingAtxTextBegin
            | StateName::HeadingAtxClosingOnly
            | StateName::HeadingAtxData
            | StateName::HeadingAtxDataEnd
            | StateName::HeadingAtxDataGo
            | StateName::HeadingAtxClosingWhitespace
            | StateName::HeadingAtxClosingSequence
            | StateName::HeadingAtxFinalWhitespace
            | StateName::HeadingAtxTrailingStart
            | StateName::HeadingAtxTrailingWhitespace
            | StateName::HeadingAtxTrailingSequence
            | StateName::HeadingAtxTrailingEnd => Family::HeadingAtx,
        }
    }

    /// The construct or content type that the state belongs to.
    pub fn family_of(self) -> (family: Family)
        ensures
            family == self.family(),
    {
        match self {
            StateName::FlowStart
            | StateName::FlowBlankLineAfter
            | StateName::FlowInitialBefore
            | StateName::FlowAfter
            | StateName::FlowBefore
            | StateName::FlowBeforeAfterPrefix
            | StateName::FlowContentBefore
            | StateName::FlowContent { .. }
            | StateName::FlowContentContinue { .. }
            | StateName::FlowContentEnd
            | StateName::FlowContinuationConstruct
            | StateName::FlowContinuationInitialBefore
            | StateName::FlowContinuationBefore
            | StateName::FlowContinuationAfterPrefix => Family::Flow,
            StateName::ParagraphStart
            | StateName::ParagraphLineStart
            | StateName::ParagraphData => Family::Paragraph,
            StateName::WhitespaceStart { .. }
            | StateName::WhitespaceInside { .. } => Family::Whitespace,
            StateName::BlankLineStart
            | StateName::BlankLineAfter => Family::BlankLine,
            StateName::ThematicBreakStart
            | StateName::ThematicBreakAtBreak { .. }
            | StateName::ThematicBreakSequence { .. }
            | StateName::ThematicBreakWhitespace { .. } => Family::ThematicBreak,
            StateName::CodeIndentedStart
            | StateName::CodeIndentedIndent { .. }
            | StateName::CodeIndentedAtBreak
            | StateName::CodeIndentedContent
            | StateName::CodeIndentedAfter
            | StateName::CodeIndentedFurtherStart
            | StateName::CodeIndentedFurtherIndent { .. } => Family::CodeIndented,
            StateName::CodeFencedStart
            | StateName::CodeFencedBeforeSequenceOpen
            | StateName::CodeFencedSequenceOpen { .. }
            | StateName::CodeFencedInfoBeforeWhitespace { .. }
            | StateName::CodeFencedInfoBefore { .. }
            | StateName::CodeFencedInfo { .. }
            | StateName::CodeFencedMetaBeforeWhitespace { .. }
            | StateName::CodeFencedMeta { .. }
            | StateName::CodeFencedAtBreak { .. }
            | StateName::CodeFencedContentBefore { .. }
            | StateName::CodeFencedContentStart { .. }
            | StateName::CodeFencedContentPrefix { .. }
            | StateName::CodeFencedContentBegin { .. }
            | StateName::CodeFencedContent { .. }
            | StateName::CodeFencedAfter
            | StateName::CodeFencedCloseStart { .. }
            | StateName::CodeFencedCloseBefore { .. }
            | StateName::CodeFencedClosePrefix { .. }
            | StateName::CodeFencedCloseSequence { .. }
            | StateName::CodeFencedCloseAfter => Family::CodeFenced,
            StateName::HtmlFlowStart
            | StateName::HtmlFlowInterrupt
            | StateName::HtmlFlowPrefix { .. }
            | StateName::HtmlFlowOpen { .. }
            | StateName::HtmlFlowDeclarationOpen
            | StateName::HtmlFlowCommentOpenInside
            | StateName::HtmlFlowCdataOpenInside { .. }
            | StateName::HtmlFlowTagCloseStart { .. }
            | StateName::HtmlFlowTagName { .. }
            | StateName::HtmlFlowBasicSelfClosing
            | StateName::HtmlFlowCompleteClosingTagAfter
            | StateName::HtmlFlowCompleteAttributeNameBefore
            | StateName::HtmlFlowCompleteAttributeName
            | StateName::HtmlFlowCompleteAttributeNameAfter
            | StateName::HtmlFlowCompleteAttributeValueBefore
            | StateName::HtmlFlowCompleteAttributeValueQuoted { .. }
            | StateName::HtmlFlowCompleteAttributeValueUnquoted
            | StateName::HtmlFlowCompleteAttributeValueQuotedAfter
            | StateName::HtmlFlowCompleteEnd
            | StateName::HtmlFlowCompleteAfter
            | StateName::HtmlFlowContinuation { .. }
            | StateName::HtmlFlowContinuationStart { .. }
            | StateName::HtmlFlowContinuationBefore { .. }
            | StateName::HtmlFlowContinuationCommentInside { .. }
            | StateName::HtmlFlowContinuationRawTagOpen { .. }
            | StateName::HtmlFlowContinuationRawEndTag { .. }
            | StateName::HtmlFlowContinuationCharacterDataInside { .. }
            | StateName::HtmlFlowContinuationDeclarationInside { .. }
            | StateName::HtmlFlowContinuationClose
            | StateName::HtmlFlowContinuationAfter
            | StateName::HtmlFlowBlankLineBefore => Family::HtmlFlow,
            StateName::DefinitionStart
            | StateName::DefinitionLabelAtBreak { .. }
            | StateName::DefinitionLabelLineStart { .. }
            | StateName::DefinitionLabelLineWhitespace { .. }
            | StateName::DefinitionLabelInside { .. }
            | StateName::DefinitionLabelEscape { .. }
            | StateName::DefinitionLabelAfter
            | StateName::DefinitionMarkerAfter
            | StateName::DefinitionDestinationBeforeWhitespace { .. }
            | StateName::DefinitionDestinationBeforeLine
            | StateName::DefinitionDestinationStart
            | StateName::DefinitionDestinationLiteral
            | StateName::DefinitionDestinationLiteralInside
            | StateName::DefinitionDestinationLiteralEscape
            | StateName::DefinitionDestinationRaw { .. }
            | StateName::DefinitionDestinationRawEscape { .. }
            | StateName::DefinitionDestinationAfter
            | StateName::DefinitionAfter
            | StateName::DefinitionAfterWhitespace
            | StateName::DefinitionTitleStart
            | StateName::DefinitionTitleBeforeWhitespace { .. }
            | StateName::DefinitionTitleBeforeLine
            | StateName::DefinitionTitleBegin
            | StateName::DefinitionTitleAtBreak { .. }
            | StateName::DefinitionTitleLineStart { .. }
            | StateName::DefinitionTitleLineWhitespace { .. }
            | StateName::DefinitionTitleInside { .. }
            | StateName::DefinitionTitleEscape { .. }
            | StateName::DefinitionTitleAfter
            | StateName::DefinitionTitleAfterWhitespace => Family::Definition,
            StateName::HeadingSetextStart => Family::HeadingSetext,
            StateName::HeadingAtxStart
            | StateName::HeadingAtxSequenceOpen { .. }
            | StateName::HeadingAtxBefore
            | StateName::HeadingAtxTextStart
            | StateName::HeadingAtxTextBegin
            | StateName::HeadingAtxClosingOnly
            | StateName::HeadingAtxData
            | StateName::HeadingAtxDataEnd
            | StateName::HeadingAtxDataGo
            | StateName::HeadingAtxClosingWhitespace
            | StateName::HeadingAtxClosingSequence
            | StateName::HeadingAtxFinalWhitespace
            | StateName::HeadingAtxTrailingStart
            | StateName::HeadingAtxTrailingWhitespace
            | StateName::HeadingAtxTrailingSequence
            | StateName::HeadingAtxTrailingEnd => Family::HeadingAtx,
        }
    }

    /// The spans that the construct has open when the state runs, outermost
    /// first.
    pub open spec fn opens(self) -> Seq<TokenType> {
        match self {
            StateName::FlowContent { .. }
            | StateName::FlowContentContinue { .. }
            | StateName::FlowContentEnd => seq![TokenType::Content, TokenType::ChunkContent],
            StateName::ParagraphLineStart => seq![TokenType::Paragraph],
            StateName::ParagraphData => seq![TokenType::Paragraph, TokenType::Data],
            StateName::WhitespaceInside { token_type } => seq![token_type],
            StateName::CodeIndentedIndent { .. } => seq![
                TokenType::CodeIndented,
                TokenType::CodeIndentedPrefixWhitespace,
            ],
            StateName::CodeIndentedAtBreak | StateName::CodeIndentedAfter => seq![
                TokenType::CodeIndented,
            ],
            StateName::CodeIndentedContent => seq![
                TokenType::CodeIndented,
                TokenType::CodeFlowChunk,
            ],
            StateName::CodeIndentedFurtherIndent { .. } => seq![
                TokenType::CodeIndentedPrefixWhitespace,
            ],
            StateName::CodeFencedBeforeSequenceOpen
            | StateName::CodeFencedInfoBefore { .. } => seq![
                TokenType::CodeFenced,
                TokenType::CodeFencedFence,
            ],
            StateName::CodeFencedSequenceOpen { .. } => seq![
                TokenType::CodeFenced,
                TokenType::CodeFencedFence,
                TokenType::CodeFencedFenceSequence,
            ],
            StateName::CodeFencedInfoBeforeWhitespace { .. }
            | StateName::CodeFencedMetaBeforeWhitespace { .. } => seq![
                TokenType::CodeFenced,
                TokenType::CodeFencedFence,
                TokenType::CodeFencedFenceWhitespace,
            ],
            StateName::CodeFencedInfo { .. } => seq![
                TokenType::CodeFenced,
                TokenType::CodeFencedFence,
                TokenType::CodeFencedFenceInfo,
            ],
            StateName::CodeFencedMeta { .. } => seq![
                TokenType::CodeFenced,
                TokenType::CodeFencedFence,
                TokenType::CodeFencedFenceMeta,
            ],
            StateName::CodeFencedAtBreak { .. }
            | StateName::CodeFencedContentBefore { .. }
            | StateName::CodeFencedContentStart { .. }
            | StateName::CodeFencedContentBegin { .. }
            | StateName::CodeFencedAfter => seq![
                TokenType::CodeFenced,
            ],
            StateName::CodeFencedContentPrefix { .. } => seq![
                TokenType::CodeFenced,
                TokenType::Whitespace,
            ],
            StateName::CodeFencedContent { .. } => seq![
                TokenType::CodeFenced,
                TokenType::CodeFlowChunk,
            ],
            StateName::CodeFencedClosePrefix { .. } => seq![
                TokenType::Whitespace,
            ],
            StateName::CodeFencedCloseSequence { .. } => seq![
                TokenType::CodeFencedFence,
                TokenType::CodeFencedFenceSequence,
            ],
            StateName::CodeFencedCloseAfter => seq![
                TokenType::CodeFencedFence,
                TokenType::CodeFencedFenceWhitespace,
            ],
            StateName::ThematicBreakAtBreak { .. } => seq![TokenType::ThematicBreak],
            StateName::ThematicBreakSequence { .. } => seq![
                TokenType::ThematicBreak,
                TokenType::ThematicBreakSequence,
            ],
            StateName::ThematicBreakWhitespace { .. } => seq![
                TokenType::ThematicBreak,
                TokenType::ThematicBreakWhitespace,
            ],
            StateName::HeadingAtxSequenceOpen { .. } | StateName::HeadingAtxClosingSequence => seq![
                TokenType::HeadingAtx,
                TokenType::HeadingAtxSequence,
            ],
            StateName::HeadingAtxBefore
            | StateName::HeadingAtxClosingWhitespace
            | StateName::HeadingAtxFinalWhitespace => seq![
                TokenType::HeadingAtx,
                TokenType::HeadingAtxWhitespace,
            ],
            StateName::HeadingAtxTextStart
            | StateName::HeadingAtxTextBegin
            | StateName::HeadingAtxClosingOnly => seq![TokenType::HeadingAtx],
            StateName::HeadingAtxData
            | StateName::HeadingAtxDataEnd
            | StateName::HeadingAtxDataGo => seq![
                TokenType::HeadingAtx,
                TokenType::HeadingAtxText,
            ],
            StateName::DefinitionLabelAtBreak { .. }
            | StateName::DefinitionLabelLineStart { .. } => seq![
                TokenType::Definition,
                TokenType::DefinitionLabel,
            ],
            StateName::DefinitionLabelLineWhitespace { .. } => seq![
                TokenType::Definition,
                TokenType::DefinitionLabel,
                TokenType::Whitespace,
            ],
            StateName::DefinitionLabelInside { .. }
            | StateName::DefinitionLabelEscape { .. } => seq![
                TokenType::Definition,
                TokenType::DefinitionLabel,
                TokenType::DefinitionLabelData,
            ],
            StateName::DefinitionLabelAfter
            | StateName::DefinitionMarkerAfter
            | StateName::DefinitionDestinationBeforeLine
            | StateName::DefinitionDestinationStart
            | StateName::DefinitionDestinationAfter
            | StateName::DefinitionAfter => seq![
                TokenType::Definition,
            ],
            StateName::DefinitionDestinationBeforeWhitespace { .. }
            | StateName::DefinitionAfterWhitespace => seq![
                TokenType::Definition,
                TokenType::Whitespace,
            ],
            StateName::DefinitionDestinationLiteral => seq![
                TokenType::Definition,
                TokenType::DefinitionDestination,
                TokenType::DefinitionDestinationLiteral,
            ],
            StateName::DefinitionDestinationLiteralInside
            | StateName::DefinitionDestinationLiteralEscape => seq![
                TokenType::Definition,
                TokenType::DefinitionDestination,
                TokenType::DefinitionDestinationLiteral,
                TokenType::DefinitionDestinationString,
            ],
            StateName::DefinitionDestinationRaw { .. }
            | StateName::DefinitionDestinationRawEscape { .. } => seq![
                TokenType::Definition,
                TokenType::DefinitionDestination,
                TokenType::DefinitionDestinationRaw,
                TokenType::DefinitionDestinationString,
            ],
            StateName::DefinitionTitleBeforeWhitespace { .. }
            | StateName::DefinitionTitleAfterWhitespace => seq![
                TokenType::Whitespace,
            ],
            StateName::DefinitionTitleAtBreak { .. }
            | StateName::DefinitionTitleLineStart { .. } => seq![
                TokenType::DefinitionTitle,
            ],
            StateName::DefinitionTitleLineWhitespace { .. } => seq![
                TokenType::DefinitionTitle,
                TokenType::Whitespace,
            ],
            StateName::DefinitionTitleInside { .. }
            | StateName::DefinitionTitleEscape { .. } => seq![
                TokenType::DefinitionTitle,
                TokenType::DefinitionTitleString,
            ],
            StateName::HtmlFlowPrefix { .. } => seq![
                TokenType::HtmlFlow,
                TokenType::Whitespace,
            ],
            StateName::HtmlFlowOpen { .. }
            | StateName::HtmlFlowDeclarationOpen
            | StateName::HtmlFlowCommentOpenInside
            | StateName::HtmlFlowCdataOpenInside { .. }
            | StateName::HtmlFlowTagCloseStart { .. }
            | StateName::HtmlFlowTagName { .. }
            | StateName::HtmlFlowBasicSelfClosing
            | StateName::HtmlFlowCompleteClosingTagAfter
            | StateName::HtmlFlowCompleteAttributeNameBefore
            | StateName::HtmlFlowCompleteAttributeName
            | StateName::HtmlFlowCompleteAttributeNameAfter
            | StateName::HtmlFlowCompleteAttributeValueBefore
            | StateName::HtmlFlowCompleteAttributeValueQuoted { .. }
            | StateName::HtmlFlowCompleteAttributeValueUnquoted
            | StateName::HtmlFlowCompleteAttributeValueQuotedAfter
            | StateName::HtmlFlowCompleteEnd
            | StateName::HtmlFlowCompleteAfter
            | StateName::HtmlFlowContinuation { .. }
            | StateName::HtmlFlowContinuationCommentInside { .. }
            | StateName::HtmlFlowContinuationRawTagOpen { .. }
            | StateName::HtmlFlowContinuationRawEndTag { .. }
            | StateName::HtmlFlowContinuationCharacterDataInside { .. }
            | StateName::HtmlFlowContinuationDeclarationInside { .. }
            | StateName::HtmlFlowContinuationClose => seq![
                TokenType::HtmlFlow,
                TokenType::HtmlFlowData,
            ],
            StateName::HtmlFlowContinuationStart { .. }
            | StateName::HtmlFlowContinuationBefore { .. }
            | StateName::HtmlFlowContinuationAfter => seq![
                TokenType::HtmlFlow,
            ],
            _ => Seq::empty(),
        }
    }

    /// Whether the state runs inside a span that has no spans inside it, so
    /// that it may consume.
    pub open spec fn in_leaf(self) -> bool {
        match self {
            StateName::FlowContent { .. }
            | StateName::FlowContentContinue { .. }
            | StateName::FlowContentEnd
            | StateName::ParagraphData
            | StateName::WhitespaceInside { .. }
            | StateName::CodeIndentedIndent { .. }
            | StateName::CodeIndentedContent
            | StateName::CodeIndentedFurtherIndent { .. }
            | StateName::CodeFencedSequenceOpen { .. }
            | StateName::CodeFencedInfoBeforeWhitespace { .. }
            | StateName::CodeFencedInfo { .. }
            | StateName::CodeFencedMetaBeforeWhitespace { .. }
            | StateName::CodeFencedMeta { .. }
            | StateName::CodeFencedContentPrefix { .. }
            | StateName::CodeFencedContent { .. }
            | StateName::CodeFencedClosePrefix { .. }
            | StateName::CodeFencedCloseSequence { .. }
            | StateName::CodeFencedCloseAfter
            | StateName::ThematicBreakSequence { .. }
            | StateName::ThematicBreakWhitespace { .. }
            | StateName::HeadingAtxSequenceOpen { .. }
            | StateName::HeadingAtxClosingSequence
            | StateName::HeadingAtxBefore
            | StateName::HeadingAtxClosingWhitespace
            | StateName::HeadingAtxFinalWhitespace
            | StateName::HeadingAtxData
            | StateName::HeadingAtxDataEnd
            | StateName::HeadingAtxDataGo => true,
            StateName::DefinitionLabelLineWhitespace { .. }
            | StateName::DefinitionLabelInside { .. }
            | StateName::DefinitionLabelEscape { .. }
            | StateName::DefinitionDestinationBeforeWhitespace { .. }
            | StateName::DefinitionDestinationLiteralInside
            | StateName::DefinitionDestinationLiteralEscape
            | StateName::DefinitionDestinationRaw { .. }
            | StateName::DefinitionDestinationRawEscape { .. }
            | StateName::DefinitionAfterWhitespace
            | StateName::DefinitionTitleBeforeWhitespace { .. }
            | StateName::DefinitionTitleLineWhitespace { .. }
            | StateName::DefinitionTitleInside { .. }
            | StateName::DefinitionTitleEscape { .. }
            | StateName::DefinitionTitleAfterWhitespace => true,
            StateName::HtmlFlowPrefix { .. }
            | StateName::HtmlFlowOpen { .. }
            | StateName::HtmlFlowDeclarationOpen
            | StateName::HtmlFlowCommentOpenInside
            | StateName::HtmlFlowCdataOpenInside { .. }
            | StateName::HtmlFlowTagCloseStart { .. }
            | StateName::HtmlFlowTagName { .. }
            | StateName::HtmlFlowBasicSelfClosing
            | StateName::HtmlFlowCompleteClosingTagAfter
            | StateName::HtmlFlowCompleteAttributeNameBefore
            | StateName::HtmlFlowCompleteAttributeName
            | StateName::HtmlFlowCompleteAttributeNameAfter
            | StateName::HtmlFlowCompleteAttributeValueBefore
            | StateName::HtmlFlowCompleteAttributeValueQuoted { .. }
            | StateName::HtmlFlowCompleteAttributeValueUnquoted
            | StateName::HtmlFlowCompleteAttributeValueQuotedAfter
            | StateName::HtmlFlowCompleteEnd
            | StateName::HtmlFlowCompleteAfter
            | StateName::HtmlFlowContinuation { .. }
            | StateName::HtmlFlowContinuationCommentInside { .. }
            | StateName::HtmlFlowContinuationRawTagOpen { .. }
            | StateName::HtmlFlowContinuationRawEndTag { .. }
            | StateName::HtmlFlowContinuationCharacterDataInside { .. }
            | StateName::HtmlFlowContinuationDeclarationInside { .. }
            | StateName::HtmlFlowContinuationClose => true,
            _ => false,
        }
    }

    /// Whether the state only looks ahead: it runs inside a check, and
    /// what it does is undone.
    pub open spec fn looks_ahead(self) -> bool {
        match self {
            StateName::FlowContinuationConstruct
            | StateName::FlowContinuationInitialBefore
            | StateName::FlowContinuationBefore
            | StateName::FlowContinuationAfterPrefix
            | StateName::HeadingAtxTrailingStart
            | StateName::HeadingAtxTrailingWhitespace
            | StateName::HeadingAtxTrailingSequence
            | StateName::HeadingAtxTrailingEnd => true,
            _ => false,
        }
    }

    /// The codes that may be fed to the state.
    pub open spec fn accepts(self) -> CodeClass {
        match self {
            StateName::FlowBlankLineAfter
            | StateName::FlowAfter
            | StateName::FlowContentEnd
            | StateName::CodeFencedAtBreak { .. }
            | StateName::CodeFencedAfter
            | StateName::CodeIndentedAfter => CodeClass::LineEnd,
            StateName::FlowContentContinue { .. }
            | StateName::CodeFencedContentBefore { .. }
            | StateName::FlowContinuationConstruct => CodeClass::Eol,
            StateName::HtmlFlowContinuationStart { .. }
            | StateName::HtmlFlowContinuationAfter => CodeClass::LineEnd,
            StateName::HtmlFlowBlankLineBefore => CodeClass::Eol,
            _ => CodeClass::Any,
        }
    }

    /// Whether the construct that the state belongs to matches only in front
    /// of a line ending or at the end of the input.
    pub open spec fn ends_line(self) -> bool {
        match self {
            StateName::BlankLineStart
            | StateName::BlankLineAfter
            | StateName::CodeFencedStart
            | StateName::CodeFencedBeforeSequenceOpen
            | StateName::CodeFencedSequenceOpen { .. }
            | StateName::CodeFencedInfoBeforeWhitespace { .. }
            | StateName::CodeFencedInfoBefore { .. }
            | StateName::CodeFencedInfo { .. }
            | StateName::CodeFencedMetaBeforeWhitespace { .. }
            | StateName::CodeFencedMeta { .. }
            | StateName::CodeFencedAtBreak { .. }
            | StateName::CodeFencedContentBefore { .. }
            | StateName::CodeFencedContentStart { .. }
            | StateName::CodeFencedContentPrefix { .. }
            | StateName::CodeFencedContentBegin { .. }
            | StateName::CodeFencedContent { .. }
            | StateName::CodeFencedAfter
            | StateName::CodeFencedCloseStart { .. }
            | StateName::CodeFencedCloseBefore { .. }
            | StateName::CodeFencedClosePrefix { .. }
            | StateName::CodeFencedCloseSequence { .. }
            | StateName::CodeFencedCloseAfter
            | StateName::HeadingSetextStart
            | StateName::CodeIndentedStart
            | StateName::CodeIndentedIndent { .. }
            | StateName::CodeIndentedAtBreak
            | StateName::CodeIndentedContent
            | StateName::CodeIndentedAfter
            | StateName::ThematicBreakStart
            | StateName::ThematicBreakAtBreak { .. }
            | StateName::ThematicBreakSequence { .. }
            | StateName::ThematicBreakWhitespace { .. }
            | StateName::HeadingAtxStart
            | StateName::HeadingAtxSequenceOpen { .. }
            | StateName::HeadingAtxBefore
            | StateName::HeadingAtxTextStart
            | StateName::HeadingAtxTextBegin
            | StateName::HeadingAtxClosingOnly
            | StateName::HeadingAtxData
            | StateName::HeadingAtxDataEnd
            | StateName::HeadingAtxDataGo
            | StateName::HeadingAtxClosingWhitespace
            | StateName::HeadingAtxClosingSequence
            | StateName::HeadingAtxFinalWhitespace
            | StateName::HeadingAtxTrailingStart
            | StateName::HeadingAtxTrailingWhitespace
            | StateName::HeadingAtxTrailingSequence
            | StateName::HeadingAtxTrailingEnd => true,
            StateName::DefinitionStart
            | StateName::DefinitionLabelAtBreak { .. }
            | StateName::DefinitionLabelLineStart { .. }
            | StateName::DefinitionLabelLineWhitespace { .. }
            | StateName::DefinitionLabelInside { .. }
            | StateName::DefinitionLabelEscape { .. }
            | StateName::DefinitionLabelAfter
            | StateName::DefinitionMarkerAfter
            | StateName::DefinitionDestinationBeforeWhitespace { .. }
            | StateName::DefinitionDestinationBeforeLine
            | StateName::DefinitionDestinationStart
            | StateName::DefinitionDestinationLiteral
            | StateName::DefinitionDestinationLiteralInside
            | StateName::DefinitionDestinationLiteralEscape
            | StateName::DefinitionDestinationRaw { .. }
            | StateName::DefinitionDestinationRawEscape { .. }
            | StateName::DefinitionDestinationAfter
            | StateName::DefinitionAfter
            | StateName::DefinitionAfterWhitespace
            | StateName::DefinitionTitleStart
            | StateName::DefinitionTitleBeforeWhitespace { .. }
            | StateName::DefinitionTitleBeforeLine
            | StateName::DefinitionTitleBegin
            | StateName::DefinitionTitleAtBreak { .. }
            | StateName::DefinitionTitleLineStart { .. }
            | StateName::DefinitionTitleLineWhitespace { .. }
            | StateName::DefinitionTitleInside { .. }
            | StateName::DefinitionTitleEscape { .. }
            | StateName::DefinitionTitleAfter
            | StateName::DefinitionTitleAfterWhitespace => true,
            StateName::HtmlFlowStart
            | StateName::HtmlFlowInterrupt
            | StateName::HtmlFlowPrefix { .. }
            | StateName::HtmlFlowOpen { .. }
            | StateName::HtmlFlowDeclarationOpen
            | StateName::HtmlFlowCommentOpenInside
            | StateName::HtmlFlowCdataOpenInside { .. }
            | StateName::HtmlFlowTagCloseStart { .. }
            | StateName::HtmlFlowTagName { .. }
            | StateName::HtmlFlowBasicSelfClosing
            | StateName::HtmlFlowCompleteClosingTagAfter
            | StateName::HtmlFlowCompleteAttributeNameBefore
            | StateName::HtmlFlowCompleteAttributeName
            | StateName::HtmlFlowCompleteAttributeNameAfter
            | StateName::HtmlFlowCompleteAttributeValueBefore
            | StateName::HtmlFlowCompleteAttributeValueQuoted { .. }
            | StateName::HtmlFlowCompleteAttributeValueUnquoted
            | StateName::HtmlFlowCompleteAttributeValueQuotedAfter
            | StateName::HtmlFlowCompleteEnd
            | StateName::HtmlFlowCompleteAfter
            | StateName::HtmlFlowContinuation { .. }
            | StateName::HtmlFlowContinuationStart { .. }
            | StateName::HtmlFlowContinuationBefore { .. }
            | StateName::HtmlFlowContinuationCommentInside { .. }
            | StateName::HtmlFlowContinuationRawTagOpen { .. }
            | StateName::HtmlFlowContinuationRawEndTag { .. }
            | StateName::HtmlFlowContinuationCharacterDataInside { .. }
            | StateName::HtmlFlowContinuationDeclarationInside { .. }
            | StateName::HtmlFlowContinuationClose
            | StateName::HtmlFlowContinuationAfter
            | StateName::HtmlFlowBlankLineBefore => true,
            _ => false,
        }
    }

    /// The most attempts that can be under way when the state runs.
    pub open spec fn depth(self) -> nat {
        match self {
            StateName::FlowStart
            | StateName::FlowBlankLineAfter
            | StateName::FlowInitialBefore
            | StateName::FlowAfter
            | StateName::FlowBefore
            | StateName::FlowBeforeAfterPrefix
            | StateName::FlowContentBefore
            | StateName::FlowContent { .. }
            | StateName::FlowContentContinue { .. }
            | StateName::FlowContentEnd
            | StateName::ParagraphStart
            | StateName::ParagraphLineStart
            | StateName::ParagraphData => 0,
            StateName::FlowContinuationConstruct
            | StateName::FlowContinuationInitialBefore
            | StateName::FlowContinuationBefore
            | StateName::FlowContinuationAfterPrefix => 1,
            StateName::HeadingAtxStart
            | StateName::HeadingAtxSequenceOpen { .. }
            | StateName::HeadingAtxBefore
            | StateName::HeadingAtxTextStart
            | StateName::HeadingAtxTextBegin
            | StateName::HeadingAtxClosingOnly
            | StateName::HeadingAtxData
            | StateName::HeadingAtxDataEnd
            | StateName::HeadingAtxDataGo
            | StateName::HeadingAtxClosingWhitespace
            | StateName::HeadingAtxClosingSequence
            | StateName::HeadingAtxFinalWhitespace => 3,
            StateName::BlankLineStart
            | StateName::BlankLineAfter
            | StateName::CodeFencedStart
            | StateName::CodeFencedBeforeSequenceOpen
            | StateName::CodeFencedSequenceOpen { .. }
            | StateName::CodeFencedInfoBeforeWhitespace { .. }
            | StateName::CodeFencedInfoBefore { .. }
            | StateName::CodeFencedInfo { .. }
            | StateName::CodeFencedMetaBeforeWhitespace { .. }
            | StateName::CodeFencedMeta { .. }
            | StateName::CodeFencedAtBreak { .. }
            | StateName::CodeFencedContentBefore { .. }
            | StateName::CodeFencedContentStart { .. }
            | StateName::CodeFencedContentPrefix { .. }
            | StateName::CodeFencedContentBegin { .. }
            | StateName::CodeFencedContent { .. }
            | StateName::CodeFencedAfter
            | StateName::CodeIndentedStart
            | StateName::CodeIndentedIndent { .. }
            | StateName::CodeIndentedAtBreak
            | StateName::CodeIndentedContent
            | StateName::CodeIndentedAfter => 4,
            StateName::DefinitionStart
            | StateName::DefinitionLabelAtBreak { .. }
            | StateName::DefinitionLabelLineStart { .. }
            | StateName::DefinitionLabelLineWhitespace { .. }
            | StateName::DefinitionLabelInside { .. }
            | StateName::DefinitionLabelEscape { .. }
            | StateName::DefinitionLabelAfter
            | StateName::DefinitionMarkerAfter
            | StateName::DefinitionDestinationBeforeWhitespace { .. }
            | StateName::DefinitionDestinationBeforeLine
            | StateName::DefinitionDestinationStart
            | StateName::DefinitionDestinationLiteral
            | StateName::DefinitionDestinationLiteralInside
            | StateName::DefinitionDestinationLiteralEscape
            | StateName::DefinitionDestinationRaw { .. }
            | StateName::DefinitionDestinationRawEscape { .. }
            | StateName::DefinitionDestinationAfter
            | StateName::DefinitionAfter
            | StateName::DefinitionAfterWhitespace => 4,
            StateName::HtmlFlowStart
            | StateName::HtmlFlowInterrupt
            | StateName::HtmlFlowPrefix { .. }
            | StateName::HtmlFlowOpen { .. }
            | StateName::HtmlFlowDeclarationOpen
            | StateName::HtmlFlowCommentOpenInside
            | StateName::HtmlFlowCdataOpenInside { .. }
            | StateName::HtmlFlowTagCloseStart { .. }
            | StateName::HtmlFlowTagName { .. }
            | StateName::HtmlFlowBasicSelfClosing
            | StateName::HtmlFlowCompleteClosingTagAfter
            | StateName::HtmlFlowCompleteAttributeNameBefore
            | StateName::HtmlFlowCompleteAttributeName
            | StateName::HtmlFlowCompleteAttributeNameAfter
            | StateName::HtmlFlowCompleteAttributeValueBefore
            | StateName::HtmlFlowCompleteAttributeValueQuoted { .. }
            | StateName::HtmlFlowCompleteAttributeValueUnquoted
            | StateName::HtmlFlowCompleteAttributeValueQuotedAfter
            | StateName::HtmlFlowCompleteEnd
            | StateName::HtmlFlowCompleteAfter
            | StateName::HtmlFlowContinuation { .. }
            | StateName::HtmlFlowContinuationStart { .. }
            | StateName::HtmlFlowContinuationBefore { .. }
            | StateName::HtmlFlowContinuationCommentInside { .. }
            | StateName::HtmlFlowContinuationRawTagOpen { .. }
            | StateName::HtmlFlowContinuationRawEndTag { .. }
            | StateName::HtmlFlowContinuationCharacterDataInside { .. }
            | StateName::HtmlFlowContinuationDeclarationInside { .. }
            | StateName::HtmlFlowContinuationClose
            | StateName::HtmlFlowContinuationAfter => 3,
            StateName::HtmlFlowBlankLineBefore => 4,
            _ => 5,
        }
    }

    /// Whether the state has no value that says something of the
    /// tokenizer.
    pub open spec fn carries_nothing(self) -> bool {
        match self {
            StateName::FlowContent { .. }
            | StateName::FlowContentContinue { .. }
            | StateName::ThematicBreakAtBreak { .. }
            | StateName::ThematicBreakSequence { .. }
            | StateName::ThematicBreakWhitespace { .. }
            | StateName::HeadingAtxSequenceOpen { .. }
            | StateName::CodeIndentedIndent { .. }
            | StateName::CodeIndentedFurtherIndent { .. }
            | StateName::CodeFencedSequenceOpen { .. }
            | StateName::CodeFencedContentPrefix { .. }
            | StateName::CodeFencedClosePrefix { .. }
            | StateName::CodeFencedCloseSequence { .. } => false,
            StateName::DefinitionLabelAtBreak { .. }
            | StateName::DefinitionLabelLineStart { .. }
            | StateName::DefinitionLabelLineWhitespace { .. }
            | StateName::DefinitionLabelInside { .. }
            | StateName::DefinitionLabelEscape { .. }
            | StateName::DefinitionDestinationRaw { .. }
            | StateName::DefinitionDestinationRawEscape { .. } => false,
            StateName::HtmlFlowPrefix { .. }
            | StateName::HtmlFlowCdataOpenInside { .. } => false,
            _ => true,
        }
    }

    /// Whether the cursor has gone on since the innermost attempt began when
    /// the state runs.
    pub open spec fn moved(self) -> bool {
        match self {
            StateName::CodeIndentedFurtherIndent { .. } => true,
            _ => false,
        }
    }

    /// Whether the construct that the state belongs to consumes before it
    /// matches.
    pub open spec fn advances(self) -> bool {
        match self {
            StateName::CodeIndentedFurtherStart
            | StateName::CodeIndentedFurtherIndent { .. } => true,
            _ => false,
        }
    }

    /// Whether the state belongs to a machine that never fails to match:
    /// it goes on to states of this kind, and ends only at the end of the
    /// input.
    pub open spec fn steady(self) -> bool {
        match self {
            StateName::FlowStart
            | StateName::FlowBlankLineAfter
            | StateName::FlowInitialBefore
            | StateName::FlowAfter
            | StateName::FlowBefore
            | StateName::FlowBeforeAfterPrefix
            | StateName::FlowContentBefore
            | StateName::FlowContent { .. }
            | StateName::FlowContentContinue { .. }
            | StateName::FlowContentEnd
            | StateName::ParagraphStart
            | StateName::ParagraphLineStart
            | StateName::ParagraphData => true,
            _ => false,
        }
    }

    /// A number that goes down along every way from state to state that
    /// consumes nothing.
    pub open spec fn rank(self) -> nat {
        match self {
            StateName::FlowStart => 8,
            StateName::FlowInitialBefore => 7,
            StateName::FlowBefore => 6,
            StateName::FlowBeforeAfterPrefix => 5,
            StateName::FlowContentBefore => 4,
            StateName::FlowContent { .. } => 3,
            StateName::FlowContinuationInitialBefore => 4,
            StateName::FlowContinuationBefore => 3,
            StateName::FlowContinuationAfterPrefix => 2,
            StateName::BlankLineStart => 2,
            StateName::CodeFencedStart => 4,
            StateName::CodeFencedBeforeSequenceOpen
            | StateName::CodeFencedSequenceOpen { .. }
            | StateName::CodeFencedInfoBeforeWhitespace { .. }
            | StateName::CodeFencedInfoBefore { .. }
            | StateName::CodeFencedInfo { .. }
            | StateName::CodeFencedMetaBeforeWhitespace { .. }
            | StateName::CodeFencedMeta { .. }
            | StateName::CodeFencedContentStart { .. }
            | StateName::CodeFencedContentPrefix { .. }
            | StateName::CodeFencedContentBegin { .. }
            | StateName::CodeFencedContent { .. } => 3,
            StateName::CodeFencedAtBreak { .. } => 2,
            StateName::CodeIndentedStart
            | StateName::CodeIndentedIndent { .. }
            | StateName::CodeIndentedAtBreak
            | StateName::CodeIndentedContent => 2,
            StateName::HeadingAtxStart
            | StateName::HeadingAtxSequenceOpen { .. }
            | StateName::HeadingAtxBefore
            | StateName::HeadingAtxTextStart
            | StateName::HeadingAtxData => 2,
            StateName::DefinitionDestinationAfter => 2,
            StateName::DefinitionStart
            | StateName::DefinitionLabelAtBreak { .. }
            | StateName::DefinitionLabelLineStart { .. }
            | StateName::DefinitionLabelLineWhitespace { .. }
            | StateName::DefinitionLabelInside { .. }
            | StateName::DefinitionLabelEscape { .. }
            | StateName::DefinitionLabelAfter
            | StateName::DefinitionMarkerAfter
            | StateName::DefinitionDestinationBeforeWhitespace { .. }
            | StateName::DefinitionDestinationBeforeLine
            | StateName::DefinitionDestinationStart
            | StateName::DefinitionDestinationLiteral
            | StateName::DefinitionDestinationLiteralInside
            | StateName::DefinitionDestinationLiteralEscape
            | StateName::DefinitionDestinationRaw { .. }
            | StateName::DefinitionDestinationRawEscape { .. } => 3,
            StateName::HtmlFlowStart
            | StateName::HtmlFlowInterrupt
            | StateName::HtmlFlowPrefix { .. }
            | StateName::HtmlFlowOpen { .. }
            | StateName::HtmlFlowDeclarationOpen
            | StateName::HtmlFlowCommentOpenInside
            | StateName::HtmlFlowCdataOpenInside { .. }
            | StateName::HtmlFlowTagCloseStart { .. }
            | StateName::HtmlFlowTagName { .. }
            | StateName::HtmlFlowBasicSelfClosing
            | StateName::HtmlFlowCompleteClosingTagAfter
            | StateName::HtmlFlowCompleteAttributeNameBefore
            | StateName::HtmlFlowCompleteAttributeName
            | StateName::HtmlFlowCompleteAttributeNameAfter
            | StateName::HtmlFlowCompleteAttributeValueBefore
            | StateName::HtmlFlowCompleteAttributeValueQuoted { .. }
            | StateName::HtmlFlowCompleteAttributeValueUnquoted
            | StateName::HtmlFlowCompleteAttributeValueQuotedAfter
            | StateName::HtmlFlowCompleteEnd
            | StateName::HtmlFlowCompleteAfter
            | StateName::HtmlFlowContinuation { .. }
            | StateName::HtmlFlowContinuationBefore { .. }
            | StateName::HtmlFlowContinuationCommentInside { .. }
            | StateName::HtmlFlowContinuationRawTagOpen { .. }
            | StateName::HtmlFlowContinuationRawEndTag { .. }
            | StateName::HtmlFlowContinuationCharacterDataInside { .. }
            | StateName::HtmlFlowContinuationDeclarationInside { .. }
            | StateName::HtmlFlowContinuationClose => 2,
            _ => 1,
        }
    }
}

impl State {
    /// Whether the state is one to go on with that never fails to match.
    pub open spec fn steady(self) -> bool {
        self matches State::Next(name) && name.steady()
    }

    pub open spec fn rank(self) -> nat {
        match self {
            State::Next(name) => name.rank(),
            _ => 0,
        }
    }
}

} // verus!
