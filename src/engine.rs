//! Diagnostics and code actions, computed from a document's text alone.
use vstd::prelude::*;
use vstd::utf8::encode_utf8;
use crate::scan::{first_occurrence, find_in, line_spans, split_lines, lemma_find_from_first};
use crate::types::{
    span_on_line, diagnostics_view, actions_view, CodeAction, CodeActionView, Diagnostic,
    DiagnosticView, Position, Range, Severity, TextEdit,
};

verus! {

/// The editor name that is flagged as an error.
pub const DISCOURAGED: &'static str = "VS Code";

/// The editor name that is flagged with a hint.
pub const ENCOURAGED: &'static str = "Neovim";

/// The censored spelling offered as a replacement.
pub const CENSORED: &'static str = "VS C*de";

/// Where the diagnostics come from.
pub const SOURCE: &'static str = "Common sense";

/// The message of an error diagnostic.
pub const ERROR_MESSAGE: &'static str = "Please make sure we use good language";

/// The message of a hint diagnostic.
pub const HINT_MESSAGE: &'static str = "Great choice :)";

/// The title of the action that replaces the flagged name.
pub const REPLACE_TITLE: &'static str = "Replace VS C*de with a superior editor";

/// The title of the action that censors the flagged name.
pub const CENSOR_TITLE: &'static str = "Censor to VS C*de";

/// The UTF-8 bytes of a text.
pub open spec fn bytes_of(text: Seq<char>) -> Seq<u8> {
    encode_utf8(text)
}

/// The diagnostics of line number `row`: the first "VS Code" as an error,
/// then the first "Neovim" as a hint.
pub open spec fn line_diagnostics(row: int, line: Seq<u8>) -> Seq<DiagnosticView> {
    let bad = bytes_of(DISCOURAGED@);
    let good = bytes_of(ENCOURAGED@);
    let errors = match first_occurrence(line, bad) {
        Some(k) => seq![
            DiagnosticView {
                range: span_on_line(row, k, k + bad.len()),
                severity: Severity::Error,
                source: SOURCE@,
                message: ERROR_MESSAGE@,
            },
        ],
        None => Seq::empty(),
    };
    let hints = match first_occurrence(line, good) {
        Some(k) => seq![
            DiagnosticView {
                range: span_on_line(row, k, k + good.len()),
                severity: Severity::Hint,
                source: SOURCE@,
                message: HINT_MESSAGE@,
            },
        ],
        None => Seq::empty(),
    };
    errors + hints
}

/// The diagnostics of the given lines, in line order.
pub open spec fn lines_diagnostics(lines: Seq<Seq<u8>>) -> Seq<DiagnosticView>
    decreases lines.len(),
{
    if lines.len() == 0 {
        Seq::empty()
    } else {
        lines_diagnostics(lines.drop_last()) + line_diagnostics(
            lines.len() - 1,
            lines.last(),
        )
    }
}

/// The diagnostics of a document's text.
pub open spec fn text_diagnostics(text: Seq<char>) -> Seq<DiagnosticView> {
    lines_diagnostics(split_lines(bytes_of(text)))
}

/// The two actions offered for line number `row` of document `doc`, when
/// the line holds "VS Code": replace it with "Neovim", or censor it.
pub open spec fn line_actions(doc: Seq<char>, row: int, line: Seq<u8>) -> Seq<CodeActionView> {
    let bad = bytes_of(DISCOURAGED@);
    match first_occurrence(line, bad) {
        Some(k) => seq![
            CodeActionView {
                title: REPLACE_TITLE@,
                document: doc,
                range: span_on_line(row, k, k + bad.len()),
                new_text: ENCOURAGED@,
            },
            CodeActionView {
                title: CENSOR_TITLE@,
                document: doc,
                range: span_on_line(row, k, k + bad.len()),
                new_text: CENSORED@,
            },
        ],
        None => Seq::empty(),
    }
}

/// The code actions of the given lines of document `doc`, in line order.
pub open spec fn lines_actions(doc: Seq<char>, lines: Seq<Seq<u8>>) -> Seq<CodeActionView>
    decreases lines.len(),
{
    if lines.len() == 0 {
        Seq::empty()
    } else {
        lines_actions(doc, lines.drop_last()) + line_actions(doc, lines.len() - 1, lines.last())
    }
}

/// The code actions of document `doc` with text `text`.
pub open spec fn text_actions(doc: Seq<char>, text: Seq<char>) -> Seq<CodeActionView> {
    lines_actions(doc, split_lines(bytes_of(text)))
}

/// Every line number and every character offset within a line of the text
/// fits the protocol's 32-bit numbers.
pub open spec fn fits_positions(text: Seq<char>) -> bool {
    let lines = split_lines(bytes_of(text));
    &&& lines.len() <= u32::MAX + 1
    &&& forall|i: int| 0 <= i < lines.len() ==> #[trigger] lines[i].len() <= u32::MAX
}

/// The range on line `line` from character `start` to character `end`.
pub fn line_range(line: u32, start: u32, end: u32) -> (r: Range)
    ensures
        r == span_on_line(line as int, start as int, end as int),
{
    Range {
        start: Position { line, character: start },
        end: Position { line, character: end },
    }
}

/// The first match of `pat` in line `[s, e)` of `b` lies inside that line,
/// so its end fits the protocol's numbers.
proof fn lemma_match_fits(b: Seq<u8>, s: int, e: int, pat: Seq<u8>, k: int)
    requires
        0 <= s <= e <= b.len(),
        first_occurrence(b.subrange(s, e), pat) == Some(k),
    ensures
        0 <= k,
        k + pat.len() <= e - s,
{
    lemma_find_from_first(b.subrange(s, e), pat, 0);
}

/// The diagnostics of a text: per line, in line order, the first
/// "VS Code" as an error and then the first "Neovim" as a hint.
pub fn diagnostics(text: &str) -> (r: Vec<Diagnostic>)
    requires
        fits_positions(text@),
    ensures
        diagnostics_view(r@) == text_diagnostics(text@),
{
    let b = text.as_bytes();
    let bad = DISCOURAGED.as_bytes();
    let good = ENCOURAGED.as_bytes();
    let spans = line_spans(b);
    let ghost lines = split_lines(b@);
    proof {
        crate::scan::lemma_split_lines_len(b@);
    }
    let mut out: Vec<Diagnostic> = Vec::new();
    let mut row: usize = 0;
    while row < spans.len()
        invariant
            b@ == bytes_of(text@),
            fits_positions(text@),
            bad@ == bytes_of(DISCOURAGED@),
            good@ == bytes_of(ENCOURAGED@),
            lines == split_lines(b@),
            spans@.len() == lines.len() <= b@.len() + 1,
            forall|i: int| 0 <= i < spans@.len() ==> #[trigger] spans@[i].0 <= spans@[i].1 <= b@.len(),
            forall|i: int|
                0 <= i < spans@.len() ==> b@.subrange(spans@[i].0 as int, spans@[i].1 as int)
                    == #[trigger] lines[i],
            row <= spans@.len(),
            diagnostics_view(out@) == lines_diagnostics(lines.take(row as int)),
        decreases spans@.len() - row,
    {
        let (s, e) = spans[row];
        let ghost line = lines[row as int];
        assert(spans@[row as int].0 <= spans@[row as int].1 <= b@.len());
        assert(b@.subrange(s as int, e as int) == line);
        assert(line.len() <= u32::MAX);
        let ghost before = out@;
        let row32 = row as u32;
        match find_in(b, s, e, bad) {
            Some(k) => {
                proof {
                    lemma_match_fits(b@, s as int, e as int, bad@, k as int);
                }
                let k32 = k as u32;
                let end32 = (k + bad.len()) as u32;
                out.push(
                    Diagnostic {
                        range: line_range(row32, k32, end32),
                        severity: Severity::Error,
                        source: SOURCE.to_owned(),
                        message: ERROR_MESSAGE.to_owned(),
                    },
                );
            },
            None => {},
        }
        let ghost mid = out@;
        match find_in(b, s, e, good) {
            Some(k) => {
                proof {
                    lemma_match_fits(b@, s as int, e as int, good@, k as int);
                }
                let k32 = k as u32;
                let end32 = (k + good.len()) as u32;
                out.push(
                    Diagnostic {
                        range: line_range(row32, k32, end32),
                        severity: Severity::Hint,
                        source: SOURCE.to_owned(),
                        message: HINT_MESSAGE.to_owned(),
                    },
                );
            },
            None => {},
        }
        assert(lines.take(row + 1).drop_last() =~= lines.take(row as int));
        assert(lines.take(row + 1).last() == line);
        assert(diagnostics_view(out@) =~= diagnostics_view(before) + line_diagnostics(
            row as int,
            line,
        ));
        row = row + 1;
    }
    assert(lines.take(row as int) =~= lines);
    out
}

/// The code actions of document `doc` with text `text`: for each line that
/// holds "VS Code", in line order, one action that replaces its first
/// occurrence with "Neovim" and one that censors it.
pub fn code_actions(doc: &String, text: &str) -> (r: Vec<CodeAction>)
    requires
        fits_positions(text@),
    ensures
        actions_view(r@) == text_actions(doc@, text@),
{
    let b = text.as_bytes();
    let bad = DISCOURAGED.as_bytes();
    let spans = line_spans(b);
    let ghost lines = split_lines(b@);
    proof {
        crate::scan::lemma_split_lines_len(b@);
    }
    let mut out: Vec<CodeAction> = Vec::new();
    let mut row: usize = 0;
    while row < spans.len()
        invariant
            b@ == bytes_of(text@),
            fits_positions(text@),
            bad@ == bytes_of(DISCOURAGED@),
            lines == split_lines(b@),
            spans@.len() == lines.len() <= b@.len() + 1,
            forall|i: int| 0 <= i < spans@.len() ==> #[trigger] spans@[i].0 <= spans@[i].1 <= b@.len(),
            forall|i: int|
                0 <= i < spans@.len() ==> b@.subrange(spans@[i].0 as int, spans@[i].1 as int)
                    == #[trigger] lines[i],
            row <= spans@.len(),
            actions_view(out@) == lines_actions(doc@, lines.take(row as int)),
        decreases spans@.len() - row,
    {
        let (s, e) = spans[row];
        let ghost line = lines[row as int];
        assert(spans@[row as int].0 <= spans@[row as int].1 <= b@.len());
        assert(b@.subrange(s as int, e as int) == line);
        assert(line.len() <= u32::MAX);
        let ghost before = out@;
        match find_in(b, s, e, bad) {
            Some(k) => {
                proof {
                    lemma_match_fits(b@, s as int, e as int, bad@, k as int);
                }
                let range = line_range(row as u32, k as u32, (k + bad.len()) as u32);
                out.push(
                    CodeAction {
                        title: REPLACE_TITLE.to_owned(),
                        document: doc.clone(),
                        edit: TextEdit { range, new_text: ENCOURAGED.to_owned() },
                    },
                );
                out.push(
                    CodeAction {
                        title: CENSOR_TITLE.to_owned(),
                        document: doc.clone(),
                        edit: TextEdit { range, new_text: CENSORED.to_owned() },
                    },
                );
            },
            None => {},
        }
        assert(lines.take(row + 1).drop_last() =~= lines.take(row as int));
        assert(lines.take(row + 1).last() == line);
        assert(actions_view(out@) =~= actions_view(before) + line_actions(doc@, row as int, line));
        row = row + 1;
    }
    assert(lines.take(row as int) =~= lines);
    out
}

/// Whether the text's line numbers and character offsets all fit the
/// protocol's 32-bit numbers, as `diagnostics` and the store require.
pub fn positions_fit(text: &str) -> (r: bool)
    ensures
        r == fits_positions(text@),
{
    let b = text.as_bytes();
    let spans = line_spans(b);
    let ghost lines = split_lines(b@);
    proof {
        crate::scan::lemma_split_lines_len(b@);
    }
    if spans.len() - 1 > u32::MAX as usize {
        return false;
    }
    let mut row: usize = 0;
    while row < spans.len()
        invariant
            b@ == bytes_of(text@),
            lines == split_lines(b@),
            spans@.len() == lines.len(),
            lines.len() <= u32::MAX + 1,
            forall|i: int| 0 <= i < spans@.len() ==> #[trigger] spans@[i].0 <= spans@[i].1 <= b@.len(),
            forall|i: int|
                0 <= i < spans@.len() ==> b@.subrange(spans@[i].0 as int, spans@[i].1 as int)
                    == #[trigger] lines[i],
            row <= spans@.len(),
            forall|i: int| 0 <= i < row ==> #[trigger] lines[i].len() <= u32::MAX,
        decreases spans@.len() - row,
    {
        let (s, e) = spans[row];
        assert(spans@[row as int].0 <= spans@[row as int].1);
        assert(b@.subrange(s as int, e as int) == lines[row as int]);
        if e - s > u32::MAX as usize {
            return false;
        }
        row = row + 1;
    }
    true
}

} // verus!
