//! The document store: the last synchronised text of every open document,
//! and the queries answered from it.
use vstd::prelude::*;
use vstd::string::StrSliceExecFns;
use crate::engine::{
    code_actions, diagnostics, fits_positions, line_range, text_actions, text_diagnostics,
};
use crate::types::{
    actions_view, diagnostics_view, CodeAction, CompletionItem, Diagnostic, HoverInfo, Location,
    span_on_line, Position, QueryError,
};

verus! {

/// The open documents, as pairs of identifier and full text.
#[derive(Debug)]
pub struct State {
    documents: Vec<(String, String)>,
}

impl State {
    /// Identifiers are unique, and every text fits the protocol's 32-bit
    /// positions.
    pub closed spec fn wf(&self) -> bool {
        &&& forall|i: int, j: int|
            0 <= i < j < self.documents@.len() ==> #[trigger] self.documents@[i].0@
                != #[trigger] self.documents@[j].0@
        &&& forall|i: int|
            0 <= i < self.documents@.len() ==> fits_positions(#[trigger] self.documents@[i].1@)
    }

    spec fn holds_at(&self, i: int, id: Seq<char>) -> bool {
        0 <= i < self.documents@.len() && self.documents@[i].0@ == id
    }

    /// Each open document's identifier mapped to its text.
    pub closed spec fn view(&self) -> Map<Seq<char>, Seq<char>> {
        Map::new(
            |id: Seq<char>| exists|i: int| self.holds_at(i, id),
            |id: Seq<char>| self.documents@[choose|i: int| self.holds_at(i, id)].1@,
        )
    }

    /// Every text in the store fits the protocol's 32-bit positions.
    pub proof fn lemma_texts_fit(&self, id: Seq<char>)
        requires
            self.wf(),
            self@.contains_key(id),
        ensures
            fits_positions(self@[id]),
    {
        let i = choose|i: int| self.holds_at(i, id);
        assert(fits_positions(self.documents@[i].1@));
    }

    proof fn lemma_view_at(&self, i: int)
        requires
            self.wf(),
            0 <= i < self.documents@.len(),
        ensures
            self@.contains_key(self.documents@[i].0@),
            self@[self.documents@[i].0@] == self.documents@[i].1@,
    {
        let id = self.documents@[i].0@;
        assert(self.holds_at(i, id));
        let j = choose|j: int| self.holds_at(j, id);
        assert(j == i) by {
            if j < i {
                assert(self.documents@[j].0@ != self.documents@[i].0@);
            } else if i < j {
                assert(self.documents@[i].0@ != self.documents@[j].0@);
            }
        }
    }

    /// An empty store.
    pub fn new() -> (r: State)
        ensures
            r.wf(),
            r@ == Map::<Seq<char>, Seq<char>>::empty(),
    {
        let r = State { documents: Vec::new() };
        assert(r@ =~= Map::<Seq<char>, Seq<char>>::empty());
        r
    }

    fn index_of(&self, id: &String) -> (r: Option<usize>)
        requires
            self.wf(),
        ensures
            match r {
                Some(i) => self.holds_at(i as int, id@) && self@.contains_key(id@) && self@[id@]
                    == self.documents@[i as int].1@,
                None => !self@.contains_key(id@),
            },
    {
        let mut i: usize = 0;
        while i < self.documents.len()
            invariant
                self.wf(),
                i <= self.documents@.len(),
                forall|j: int| 0 <= j < i ==> self.documents@[j].0@ != id@,
            decreases self.documents@.len() - i,
        {
            if self.documents[i].0 == *id {
                proof {
                    self.lemma_view_at(i as int);
                }
                return Some(i);
            }
            i = i + 1;
        }
        None
    }

    /// Makes `text` the whole content of document `id`, replacing any
    /// earlier content.
    fn insert(&mut self, id: String, text: String)
        requires
            old(self).wf(),
            fits_positions(text@),
        ensures
            final(self).wf(),
            final(self)@ == old(self)@.insert(id@, text@),
    {
        let ghost before = *self;
        match self.index_of(&id) {
            Some(i) => {
                self.documents.set(i, (id, text));
                let ghost k = self.documents@[i as int].0@;
                assert(self.wf()) by {
                    assert forall|a: int, c: int|
                        0 <= a < c < self.documents@.len() implies #[trigger] self.documents@[a].0@
                        != #[trigger] self.documents@[c].0@ by {
                        assert(before.documents@[a].0@ != before.documents@[c].0@);
                    }
                }
                assert forall|key: Seq<char>| #[trigger]
                    self@.contains_key(key) == before@.insert(k, text@).contains_key(key) by {
                    if key != k {
                        if self@.contains_key(key) {
                            let j = choose|j: int| self.holds_at(j, key);
                            assert(before.holds_at(j, key));
                        }
                        if before@.contains_key(key) {
                            let j = choose|j: int| before.holds_at(j, key);
                            assert(self.holds_at(j, key));
                        }
                    } else {
                        assert(self.holds_at(i as int, key));
                    }
                }
                assert forall|key: Seq<char>| #[trigger]
                    self@.contains_key(key) implies self@[key] == before@.insert(
                    k,
                    text@,
                )[key] by {
                    let j = choose|j: int| self.holds_at(j, key);
                    self.lemma_view_at(j);
                    if key != k {
                        before.lemma_view_at(j);
                    }
                }
                assert(self@ =~= before@.insert(id@, text@));
            },
            None => {
                self.documents.push((id, text));
                let ghost n: int = self.documents@.len() - 1;
                let ghost k = self.documents@[n].0@;
                assert(self.wf()) by {
                    assert forall|a: int, c: int|
                        0 <= a < c < self.documents@.len() implies #[trigger] self.documents@[a].0@
                        != #[trigger] self.documents@[c].0@ by {
                        if c < n {
                            assert(before.documents@[a].0@ != before.documents@[c].0@);
                        } else {
                            assert(before.holds_at(a, self.documents@[a].0@));
                        }
                    }
                }
                assert forall|key: Seq<char>| #[trigger]
                    self@.contains_key(key) == before@.insert(k, text@).contains_key(key) by {
                    if key != k {
                        if self@.contains_key(key) {
                            let j = choose|j: int| self.holds_at(j, key);
                            assert(before.holds_at(j, key));
                        }
                        if before@.contains_key(key) {
                            let j = choose|j: int| before.holds_at(j, key);
                            assert(self.holds_at(j, key));
                        }
                    } else {
                        assert(self.holds_at(n, key));
                    }
                }
                assert forall|key: Seq<char>| #[trigger]
                    self@.contains_key(key) implies self@[key] == before@.insert(
                    k,
                    text@,
                )[key] by {
                    let j = choose|j: int| self.holds_at(j, key);
                    self.lemma_view_at(j);
                    if key != k {
                        before.lemma_view_at(j);
                    }
                }
                assert(self@ =~= before@.insert(id@, text@));
            },
        }
    }

    /// Opens document `id` with content `text` and returns the diagnostics of
    /// `text`. An open document is replaced as a whole.
    pub fn open_document(&mut self, id: String, text: String) -> (r: Vec<Diagnostic>)
        requires
            old(self).wf(),
            fits_positions(text@),
        ensures
            final(self).wf(),
            final(self)@ == old(self)@.insert(id@, text@),
            final(self)@.contains_key(id@),
            final(self)@[id@] == text@,
            forall|other: Seq<char>|
                other != id@ ==> (#[trigger] final(self)@.contains_key(other)
                    == old(self)@.contains_key(other)) && (old(self)@.contains_key(other)
                    ==> final(self)@[other] == old(self)@[other]),
            diagnostics_view(r@) == text_diagnostics(text@),
    {
        let r = diagnostics(text.as_str());
        self.insert(id, text);
        r
    }

    /// Replaces the whole content of document `id` with `text` and returns
    /// the diagnostics of `text`; an unknown `id` is opened.
    pub fn update_document(&mut self, id: String, text: String) -> (r: Vec<Diagnostic>)
        requires
            old(self).wf(),
            fits_positions(text@),
        ensures
            final(self).wf(),
            final(self)@ == old(self)@.insert(id@, text@),
            final(self)@.contains_key(id@),
            final(self)@[id@] == text@,
            forall|other: Seq<char>|
                other != id@ ==> (#[trigger] final(self)@.contains_key(other)
                    == old(self)@.contains_key(other)) && (old(self)@.contains_key(other)
                    ==> final(self)@[other] == old(self)@[other]),
            diagnostics_view(r@) == text_diagnostics(text@),
    {
        let r = diagnostics(text.as_str());
        self.insert(id, text);
        r
    }

    /// The current text of document `id`.
    pub fn read(&self, id: &String) -> (r: Result<String, QueryError>)
        requires
            self.wf(),
        ensures
            match r {
                Ok(text) => self@.contains_key(id@) && text@ == self@[id@],
                Err(e) => !self@.contains_key(id@) && e == QueryError::UnknownDocument,
            },
    {
        match self.index_of(id) {
            Some(i) => Ok(self.documents[i].1.clone()),
            None => Err(QueryError::UnknownDocument),
        }
    }

    /// The document's identifier and its number of characters; the position
    /// is not consulted.
    pub fn hover(&self, id: &String, position: Position) -> (r: Result<HoverInfo, QueryError>)
        requires
            self.wf(),
        ensures
            match r {
                Ok(h) => self@.contains_key(id@) && h.document@ == id@ && h.characters
                    == self@[id@].len(),
                Err(e) => !self@.contains_key(id@) && e == QueryError::UnknownDocument,
            },
    {
        match self.index_of(id) {
            Some(i) => Ok(HoverInfo { document: id.clone(), characters: self.documents[i].1.as_str().unicode_len() }),
            None => Err(QueryError::UnknownDocument),
        }
    }

    /// The start of the line above `position`, in the same document; there
    /// is none above the first line.
    pub fn definition(&self, id: &String, position: Position) -> (r: Result<Location, QueryError>)
        ensures
            match r {
                Ok(loc) => position.line > 0 && loc.document@ == id@ && loc.range == span_on_line(
                    position.line - 1,
                    0,
                    0,
                ),
                Err(e) => position.line == 0 && e == QueryError::InvalidPosition,
            },
    {
        if position.line == 0 {
            return Err(QueryError::InvalidPosition);
        }
        Ok(Location { document: id.clone(), range: line_range(position.line - 1, 0, 0) })
    }

    /// The code actions of document `id`: two for each line that holds
    /// "VS Code".
    pub fn code_action(&self, id: &String) -> (r: Result<Vec<CodeAction>, QueryError>)
        requires
            self.wf(),
        ensures
            match r {
                Ok(acts) => self@.contains_key(id@) && actions_view(acts@) == text_actions(
                    id@,
                    self@[id@],
                ),
                Err(e) => !self@.contains_key(id@) && e == QueryError::UnknownDocument,
            },
    {
        match self.index_of(id) {
            Some(i) => {
                proof {
                    self.lemma_texts_fit(id@);
                }
                Ok(code_actions(id, self.documents[i].1.as_str()))
            },
            None => Err(QueryError::UnknownDocument),
        }
    }

    /// The completion list: one fixed item, whatever the document holds.
    pub fn completion(&self, id: &String) -> (r: Vec<CompletionItem>)
        ensures
            r@.len() == 1,
            r@[0].label@ == COMPLETION_LABEL@,
            r@[0].detail@ == COMPLETION_DETAIL@,
            r@[0].documentation@ == COMPLETION_DOCUMENTATION@,
    {
        let item = CompletionItem {
            label: COMPLETION_LABEL.to_owned(),
            detail: COMPLETION_DETAIL.to_owned(),
            documentation: COMPLETION_DOCUMENTATION.to_owned(),
        };
        let mut r: Vec<CompletionItem> = Vec::new();
        r.push(item);
        r
    }
}

impl Default for State {
    /// An empty store.
    fn default() -> (r: State)
        ensures
            r.wf(),
            r@ == Map::<Seq<char>, Seq<char>>::empty(),
    {
        State::new()
    }
}

/// The label of the completion item.
pub const COMPLETION_LABEL: &'static str = "Neovim (BTW)";

/// The detail of the completion item.
pub const COMPLETION_DETAIL: &'static str = "Very cool editor";

/// The documentation of the completion item.
pub const COMPLETION_DOCUMENTATION: &'static str = "Some example documentation";

} // verus!
