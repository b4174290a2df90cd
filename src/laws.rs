//! Laws that relate the operations of the store and the query engine.
use vstd::prelude::*;
use crate::engine::{
    bytes_of, line_actions, line_diagnostics, lines_actions, lines_diagnostics, text_actions,
    text_diagnostics, DISCOURAGED,
};
use crate::scan::{first_occurrence, split_lines};
use crate::types::{diagnostics_view, Diagnostic, DiagnosticView, Severity};

verus! {

/// Reading a document right after opening it with `text` gives back
/// exactly `text`. `before` and `after` are the store's contents around
/// `open_document(id, text)`.
pub proof fn lemma_open_then_read(
    before: Map<Seq<char>, Seq<char>>,
    after: Map<Seq<char>, Seq<char>>,
    id: Seq<char>,
    text: Seq<char>,
)
    requires
        after == before.insert(id, text),
    ensures
        after.contains_key(id),
        after[id] == text,
{
}

/// After opening a document with `first` and then updating it with
/// `second`, reading it gives `second`, and the store holds nothing of
/// `first`: it is as if only `second` had been written.
pub proof fn lemma_update_replaces(
    before: Map<Seq<char>, Seq<char>>,
    opened: Map<Seq<char>, Seq<char>>,
    after: Map<Seq<char>, Seq<char>>,
    id: Seq<char>,
    first: Seq<char>,
    second: Seq<char>,
)
    requires
        opened == before.insert(id, first),
        after == opened.insert(id, second),
    ensures
        after.contains_key(id),
        after[id] == second,
        after == before.insert(id, second),
{
    assert(after =~= before.insert(id, second));
}

/// Two computations of the diagnostics of the same text agree.
pub proof fn lemma_diagnostics_repeatable(
    text: Seq<char>,
    first: Seq<Diagnostic>,
    second: Seq<Diagnostic>,
)
    requires
        diagnostics_view(first) == text_diagnostics(text),
        diagnostics_view(second) == text_diagnostics(text),
    ensures
        diagnostics_view(first) == diagnostics_view(second),
{
}

/// Writes to two distinct documents do not interfere: in either order the
/// store ends the same, with each document holding its own writer's text
/// and every other document untouched.
pub proof fn lemma_distinct_writes_independent(
    before: Map<Seq<char>, Seq<char>>,
    a: Seq<char>,
    text_a: Seq<char>,
    b: Seq<char>,
    text_b: Seq<char>,
)
    requires
        a != b,
    ensures
        before.insert(a, text_a).insert(b, text_b) == before.insert(b, text_b).insert(a, text_a),
        before.insert(a, text_a).insert(b, text_b)[a] == text_a,
        before.insert(a, text_a).insert(b, text_b)[b] == text_b,
        forall|other: Seq<char>|
            other != a && other != b ==> (#[trigger] before.insert(a, text_a).insert(
                b,
                text_b,
            ).contains_key(other) == before.contains_key(other)) && (before.contains_key(other)
                ==> before.insert(a, text_a).insert(b, text_b)[other] == before[other]),
{
    assert(before.insert(a, text_a).insert(b, text_b) =~= before.insert(b, text_b).insert(
        a,
        text_a,
    ));
}

/// On every line the code actions cover exactly the span of the line's
/// error diagnostic: there are two of them when the line has that
/// diagnostic, and none otherwise.
pub proof fn lemma_actions_follow_errors(doc: Seq<char>, row: int, line: Seq<u8>)
    ensures
        first_occurrence(line, bytes_of(DISCOURAGED@)) is Some ==> {
            &&& line_actions(doc, row, line).len() == 2
            &&& line_diagnostics(row, line)[0].severity == Severity::Error
            &&& line_actions(doc, row, line)[0].range == line_diagnostics(row, line)[0].range
            &&& line_actions(doc, row, line)[1].range == line_diagnostics(row, line)[0].range
        },
        first_occurrence(line, bytes_of(DISCOURAGED@)) is None ==> {
            &&& line_actions(doc, row, line).len() == 0
            &&& forall|i: int|
                0 <= i < line_diagnostics(row, line).len() ==> #[trigger] line_diagnostics(
                    row,
                    line,
                )[i].severity == Severity::Hint
        },
{
}

/// Synchronising a document with the text it already holds leaves the
/// store as it was.
pub proof fn lemma_resync_same_text(
    before: Map<Seq<char>, Seq<char>>,
    id: Seq<char>,
    text: Seq<char>,
)
    requires
        before.contains_key(id),
        before[id] == text,
    ensures
        before.insert(id, text) == before,
{
    assert(before.insert(id, text) =~= before);
}

/// Picks the error diagnostics.
pub open spec fn error_pred() -> spec_fn(DiagnosticView) -> bool {
    |d: DiagnosticView| d.severity == Severity::Error
}

/// The error diagnostics among `ds`, in order.
pub open spec fn errors_of(ds: Seq<DiagnosticView>) -> Seq<DiagnosticView> {
    ds.filter(error_pred())
}

/// The code actions of `actions` come in pairs, one pair for each error of
/// `errors`, both actions of a pair covering that error's range.
pub open spec fn pairs_follow(
    actions: Seq<crate::types::CodeActionView>,
    errors: Seq<DiagnosticView>,
) -> bool {
    &&& actions.len() == 2 * errors.len()
    &&& forall|i: int|
        0 <= i < errors.len() ==> actions[2 * i].range == #[trigger] errors[i].range
            && actions[2 * i + 1].range == errors[i].range
}

proof fn lemma_line_follows(doc: Seq<char>, row: int, line: Seq<u8>)
    ensures
        pairs_follow(line_actions(doc, row, line), errors_of(line_diagnostics(row, line))),
{
    reveal_with_fuel(Seq::filter, 2);
    let ds = line_diagnostics(row, line);
    let bad = bytes_of(DISCOURAGED@);
    let good = bytes_of(crate::engine::ENCOURAGED@);
    let errors = match first_occurrence(line, bad) {
        Some(k) => seq![ds[0]],
        None => Seq::<DiagnosticView>::empty(),
    };
    let hints = ds.subrange(errors.len() as int, ds.len() as int);
    assert(ds =~= errors + hints);
    Seq::filter_distributes_over_add(errors, hints, error_pred());
    assert(hints.len() <= 1);
    if hints.len() == 1 {
        assert(hints =~= seq![hints[0]]);
        assert(hints[0].severity == Severity::Hint);
    }
    assert(hints.filter(error_pred()) =~= Seq::<DiagnosticView>::empty());
    if errors.len() == 1 {
        assert(errors =~= seq![errors[0]]);
    }
    assert(errors.filter(error_pred()) =~= errors);
}

proof fn lemma_lines_follow(doc: Seq<char>, lines: Seq<Seq<u8>>)
    ensures
        pairs_follow(lines_actions(doc, lines), errors_of(lines_diagnostics(lines))),
    decreases lines.len(),
{
    if lines.len() > 0 {
        let init = lines.drop_last();
        let row = lines.len() - 1;
        lemma_lines_follow(doc, init);
        lemma_line_follows(doc, row, lines.last());
        let a0 = lines_actions(doc, init);
        let a1 = line_actions(doc, row, lines.last());
        let e0 = errors_of(lines_diagnostics(init));
        let e1 = errors_of(line_diagnostics(row, lines.last()));
        Seq::filter_distributes_over_add(
            lines_diagnostics(init),
            line_diagnostics(row, lines.last()),
            error_pred(),
        );
        let acts = a0 + a1;
        let errs = e0 + e1;
        assert(errors_of(lines_diagnostics(lines)) == errs);
        assert(lines_actions(doc, lines) == acts);
        assert forall|i: int| 0 <= i < errs.len() implies acts[2 * i].range
            == #[trigger] errs[i].range && acts[2 * i + 1].range == errs[i].range by {
            if i < e0.len() {
                assert(e0[i] == errs[i]);
            } else {
                let j = i - e0.len();
                assert(e1[j] == errs[i]);
                assert(acts[2 * i] == a1[2 * j]);
                assert(acts[2 * i + 1] == a1[2 * j + 1]);
            }
        }
    }
}

/// Across a whole document, the code actions come in pairs, one pair for
/// each error diagnostic of its text and in the same order, and both
/// actions of a pair cover exactly that diagnostic's range.
pub proof fn lemma_document_actions_follow_errors(doc: Seq<char>, text: Seq<char>)
    ensures
        pairs_follow(text_actions(doc, text), errors_of(text_diagnostics(text))),
{
    lemma_lines_follow(doc, split_lines(bytes_of(text)));
}

} // verus!
