//! The documents that the client has open, with the version and full text of each.

use vstd::prelude::*;

verus! {

/// A range of a document in LSP positions.
#[derive(PartialEq, Eq, Structural, Clone, Copy, Debug)]
pub struct TextRange {
    pub start_line: u32,
    pub start_character: u32,
    pub end_line: u32,
    pub end_character: u32,
}

/// A change of a document: a new full text when `range` is `None`, else an edit of
/// `range` (which this server does not support).
pub struct ContentChange {
    pub range: Option<TextRange>,
    pub range_length: Option<u32>,
    pub text: String,
}

/// An open document.
pub struct Document {
    pub version: i32,
    pub text: String,
}

/// The text after applying `changes` in order to `text`, and whether all of them were
/// applied: the changes stop at the first one with a range, which is not applied.
pub open spec fn apply_changes(text: Seq<char>, changes: Seq<ContentChange>) -> (Seq<char>, bool)
    decreases changes.len(),
{
    if changes.len() == 0 {
        (text, true)
    } else if changes[0].range is Some {
        (text, false)
    } else {
        apply_changes(changes[0].text@, changes.skip(1))
    }
}

impl Document {
    pub fn new(version: i32, text: String) -> (r: Self)
        ensures
            r.version == version,
            r.text == text,
    {
        Self { version, text }
    }

    /// Replaces the text by each full-text change in turn and then takes `version`.
    /// Incremental changes are not supported: at the first change with a range the
    /// update stops, keeping the text reached so far and the old version.
    pub fn update(&mut self, version: i32, changes: Vec<ContentChange>)
        ensures
            final(self).text@ == apply_changes(old(self).text@, changes@).0,
            final(self).version == if apply_changes(old(self).text@, changes@).1 {
                version
            } else {
                old(self).version
            },
    {
        let mut i: usize = 0;
        assert(changes@.skip(0) =~= changes@);
        while i < changes.len()
            invariant
                i <= changes@.len(),
                apply_changes(self.text@, changes@.skip(i as int)) == apply_changes(
                    old(self).text@,
                    changes@,
                ),
                self.version == old(self).version,
            decreases changes@.len() - i,
        {
            let ghost rest = changes@.skip(i as int);
            assert(rest[0] == changes@[i as int]);
            if changes[i].range.is_some() {
                return;
            }
            self.text = changes[i].text.clone();
            assert(rest.skip(1) =~= changes@.skip(i + 1));
            i = i + 1;
        }
        assert(changes@.skip(i as int).len() == 0);
        self.version = version;
    }
}

/// The version and text of a document.
pub open spec fn doc_view(d: Document) -> (i32, Seq<char>) {
    (d.version, d.text@)
}

/// The documents of `entries` by URI, a later entry of a URI replacing an earlier one.
pub open spec fn entries_map(entries: Seq<(String, Document)>) -> Map<Seq<char>, (i32, Seq<char>)>
    decreases entries.len(),
{
    if entries.len() == 0 {
        Map::empty()
    } else {
        entries_map(entries.drop_last()).insert(
            entries.last().0@,
            doc_view(entries.last().1),
        )
    }
}

/// Whether no URI occurs twice in `entries`.
pub open spec fn distinct_uris(entries: Seq<(String, Document)>) -> bool {
    forall|i: int, j: int|
        0 <= i < j < entries.len() ==> (#[trigger] entries[i]).0@ != (#[trigger] entries[j]).0@
}

proof fn lemma_entries_map(entries: Seq<(String, Document)>)
    requires
        distinct_uris(entries),
    ensures
        forall|u: Seq<char>|
            #[trigger] entries_map(entries).contains_key(u) <==> exists|i: int|
                0 <= i < entries.len() && (#[trigger] entries[i]).0@ == u,
        forall|i: int|
            0 <= i < entries.len() ==> entries_map(entries)[(#[trigger] entries[i]).0@]
                == doc_view(entries[i].1),
    decreases entries.len(),
{
    if entries.len() > 0 {
        let init = entries.drop_last();
        assert(distinct_uris(init)) by {
            assert forall|i: int, j: int| 0 <= i < j < init.len() implies (#[trigger] init[i]).0@
                != (#[trigger] init[j]).0@ by {
                assert(init[i] == entries[i] && init[j] == entries[j]);
            }
        }
        lemma_entries_map(init);
        let m = entries_map(entries);
        assert forall|u: Seq<char>| #[trigger] m.contains_key(u) <==> exists|i: int|
            0 <= i < entries.len() && (#[trigger] entries[i]).0@ == u by {
            if m.contains_key(u) && u != entries.last().0@ {
                assert(entries_map(init).contains_key(u));
                let i = choose|i: int| 0 <= i < init.len() && (#[trigger] init[i]).0@ == u;
                assert(entries[i] == init[i]);
            }
            if exists|i: int| 0 <= i < entries.len() && (#[trigger] entries[i]).0@ == u {
                let i = choose|i: int| 0 <= i < entries.len() && (#[trigger] entries[i]).0@ == u;
                if i < entries.len() - 1 {
                    assert(init[i] == entries[i]);
                }
            }
        }
        assert forall|i: int| 0 <= i < entries.len() implies m[(#[trigger] entries[i]).0@]
            == doc_view(entries[i].1) by {
            if i < entries.len() - 1 {
                assert(init[i] == entries[i]);
                assert(entries[i].0@ != entries[entries.len() - 1].0@);
            }
        }
    }
}

/// `m` is the map of the distinct `entries` when it holds exactly their URIs, each with
/// the version and text of its entry.
proof fn lemma_map_by_membership(entries: Seq<(String, Document)>, m: Map<Seq<char>, (i32, Seq<char>)>)
    requires
        distinct_uris(entries),
        forall|j: int|
            0 <= j < entries.len() ==> m.contains_key((#[trigger] entries[j]).0@) && m[entries[j].0@]
                == doc_view(entries[j].1),
        forall|u: Seq<char>|
            #[trigger] m.contains_key(u) ==> exists|j: int|
                0 <= j < entries.len() && (#[trigger] entries[j]).0@ == u,
    ensures
        entries_map(entries) == m,
{
    lemma_entries_map(entries);
    assert(entries_map(entries) =~= m);
}

/// The open documents, by URI. They are held as a list in which no URI occurs twice,
/// not in a `HashMap` keyed by `String`: vstd specifies the lookups of a `HashMap` only
/// for keys that obey its key model, which it establishes for primitive types and not
/// for `String`.
pub struct DocumentStore {
    entries: Vec<(String, Document)>,
}

impl DocumentStore {
    #[verifier::type_invariant]
    spec fn unique(self) -> bool {
        distinct_uris(self.entries@)
    }

    /// The version and text of each open document, by URI.
    pub closed spec fn documents(self) -> Map<Seq<char>, (i32, Seq<char>)> {
        entries_map(self.entries@)
    }

    /// No document is open.
    pub fn new() -> (r: Self)
        ensures
            r.documents() == Map::<Seq<char>, (i32, Seq<char>)>::empty(),
    {
        let r = DocumentStore { entries: Vec::new() };
        assert(r.documents() =~= Map::<Seq<char>, (i32, Seq<char>)>::empty());
        r
    }

    fn find_in(entries: &Vec<(String, Document)>, uri: &String) -> (r: Option<usize>)
        ensures
            match r {
                Some(i) => i < entries@.len() && entries@[i as int].0@ == uri@,
                None => forall|i: int| 0 <= i < entries@.len() ==> (#[trigger] entries@[i]).0@ != uri@,
            },
    {
        let mut i: usize = 0;
        while i < entries.len()
            invariant
                i <= entries@.len(),
                forall|j: int| 0 <= j < i ==> (#[trigger] entries@[j]).0@ != uri@,
            decreases entries@.len() - i,
        {
            if entries[i].0 == *uri {
                return Some(i);
            }
            i = i + 1;
        }
        None
    }

    /// The document open under `uri`, if any.
    pub fn get(&self, uri: &String) -> (r: Option<&Document>)
        ensures
            match r {
                Some(d) => self.documents().contains_key(uri@) && self.documents()[uri@]
                    == doc_view(*d),
                None => !self.documents().contains_key(uri@),
            },
    {
        proof {
            use_type_invariant(self);
            lemma_entries_map(self.entries@);
        }
        match Self::find_in(&self.entries, uri) {
            Some(i) => Some(&self.entries[i].1),
            None => None,
        }
    }

    /// Opens `document` under `uri`, in place of any document open under it.
    pub fn open(&mut self, uri: String, document: Document)
        ensures
            final(self).documents() == old(self).documents().insert(uri@, doc_view(document)),
    {
        proof {
            use_type_invariant(&*self);
        }
        let mut entries: Vec<(String, Document)> = Vec::new();
        std::mem::swap(&mut entries, &mut self.entries);
        let ghost old_entries = entries@;
        let ghost key = uri@;
        let ghost dv = doc_view(document);
        proof {
            lemma_entries_map(old_entries);
        }
        let ghost target = entries_map(old_entries).insert(key, dv);
        match Self::find_in(&entries, &uri) {
            Some(i) => {
                entries.set(i, (uri, document));
                proof {
                    assert forall|a: int, b: int| 0 <= a < b < entries@.len() implies (
                    #[trigger] entries@[a]).0@ != (#[trigger] entries@[b]).0@ by {
                        if a != i && b != i {
                            assert(entries@[a] == old_entries[a] && entries@[b] == old_entries[b]);
                        } else if a == i {
                            assert(entries@[b] == old_entries[b]);
                            assert(old_entries[i as int].0@ == key);
                        } else {
                            assert(entries@[a] == old_entries[a]);
                            assert(old_entries[i as int].0@ == key);
                        }
                    }
                    assert forall|j: int| 0 <= j < entries@.len() implies target.contains_key(
                        (#[trigger] entries@[j]).0@,
                    ) && target[entries@[j].0@] == doc_view(entries@[j].1) by {
                        if j != i {
                            assert(entries@[j] == old_entries[j]);
                            assert(old_entries[i as int].0@ == key);
                        }
                    }
                    assert forall|u: Seq<char>| #[trigger] target.contains_key(u) implies exists|
                        j: int,
                    | 0 <= j < entries@.len() && (#[trigger] entries@[j]).0@ == u by {
                        if u == key {
                            assert(entries@[i as int].0@ == u);
                        } else {
                            let j = choose|j: int|
                                0 <= j < old_entries.len() && (#[trigger] old_entries[j]).0@ == u;
                            assert(j != i);
                            assert(entries@[j] == old_entries[j]);
                        }
                    }
                    lemma_map_by_membership(entries@, target);
                }
            },
            None => {
                entries.push((uri, document));
                proof {
                    assert forall|a: int, b: int| 0 <= a < b < entries@.len() implies (
                    #[trigger] entries@[a]).0@ != (#[trigger] entries@[b]).0@ by {
                        assert(entries@[a] == old_entries[a]);
                        if b < old_entries.len() {
                            assert(entries@[b] == old_entries[b]);
                        }
                    }
                    assert forall|j: int| 0 <= j < entries@.len() implies target.contains_key(
                        (#[trigger] entries@[j]).0@,
                    ) && target[entries@[j].0@] == doc_view(entries@[j].1) by {
                        if j < old_entries.len() {
                            assert(entries@[j] == old_entries[j]);
                        }
                    }
                    assert forall|u: Seq<char>| #[trigger] target.contains_key(u) implies exists|
                        j: int,
                    | 0 <= j < entries@.len() && (#[trigger] entries@[j]).0@ == u by {
                        if u == key {
                            assert(entries@[old_entries.len() as int].0@ == u);
                        } else {
                            let j = choose|j: int|
                                0 <= j < old_entries.len() && (#[trigger] old_entries[j]).0@ == u;
                            assert(entries@[j] == old_entries[j]);
                        }
                    }
                    lemma_map_by_membership(entries@, target);
                }
            },
        }
        self.entries = entries;
    }

    /// Closes the document open under `uri`, if any.
    pub fn close(&mut self, uri: &String)
        ensures
            final(self).documents() == old(self).documents().remove(uri@),
    {
        proof {
            use_type_invariant(&*self);
        }
        let mut entries: Vec<(String, Document)> = Vec::new();
        std::mem::swap(&mut entries, &mut self.entries);
        let ghost old_entries = entries@;
        let ghost key = uri@;
        proof {
            lemma_entries_map(old_entries);
        }
        let ghost target = entries_map(old_entries).remove(key);
        match Self::find_in(&entries, uri) {
            Some(i) => {
                entries.remove(i);
                proof {
                    assert forall|j: int| 0 <= j < entries@.len() implies #[trigger] entries@[j]
                        == old_entries[if j < i { j } else { j + 1 }] by {}
                    assert forall|a: int, b: int| 0 <= a < b < entries@.len() implies (
                    #[trigger] entries@[a]).0@ != (#[trigger] entries@[b]).0@ by {
                        let a2 = if a < i { a } else { a + 1 };
                        let b2 = if b < i { b } else { b + 1 };
                        assert(entries@[a] == old_entries[a2] && entries@[b] == old_entries[b2]);
                    }
                    assert forall|j: int| 0 <= j < entries@.len() implies target.contains_key(
                        (#[trigger] entries@[j]).0@,
                    ) && target[entries@[j].0@] == doc_view(entries@[j].1) by {
                        let j2 = if j < i { j } else { j + 1 };
                        assert(entries@[j] == old_entries[j2]);
                        assert(old_entries[i as int].0@ == key);
                    }
                    assert forall|u: Seq<char>| #[trigger] target.contains_key(u) implies exists|
                        j: int,
                    | 0 <= j < entries@.len() && (#[trigger] entries@[j]).0@ == u by {
                        let j = choose|j: int|
                            0 <= j < old_entries.len() && (#[trigger] old_entries[j]).0@ == u;
                        assert(j != i);
                        let j2 = if j < i { j } else { j - 1 };
                        assert(entries@[j2] == old_entries[j]);
                    }
                    lemma_map_by_membership(entries@, target);
                }
            },
            None => {
                proof {
                    assert(target =~= entries_map(old_entries));
                }
            },
        }
        self.entries = entries;
    }

    /// Applies `changes` with `version` to the document open under `uri` (see
    /// `Document::update`) and tells whether one was open; nothing changes otherwise.
    pub fn change(&mut self, uri: &String, version: i32, changes: Vec<ContentChange>) -> (r: bool)
        ensures
            r == old(self).documents().contains_key(uri@),
            !r ==> final(self).documents() == old(self).documents(),
            r ==> final(self).documents() == old(self).documents().insert(
                uri@,
                (
                    if apply_changes(old(self).documents()[uri@].1, changes@).1 {
                        version
                    } else {
                        old(self).documents()[uri@].0
                    },
                    apply_changes(old(self).documents()[uri@].1, changes@).0,
                ),
            ),
    {
        proof {
            use_type_invariant(&*self);
            lemma_entries_map(self.entries@);
        }
        let mut entries: Vec<(String, Document)> = Vec::new();
        std::mem::swap(&mut entries, &mut self.entries);
        let ghost old_entries = entries@;
        let found = Self::find_in(&entries, uri);
        let r = match found {
            Some(i) => {
                let mut entry = (String::new(), Document::new(0, String::new()));
                entries.set_and_swap(i, &mut entry);
                let ghost before = entry;
                entry.1.update(version, changes);
                entries.set(i, entry);
                proof {
                    let target = entries_map(old_entries).insert(uri@, doc_view(entry.1));
                    assert(entries@ == old_entries.update(i as int, entry));
                    assert forall|a: int, b: int| 0 <= a < b < entries@.len() implies (
                    #[trigger] entries@[a]).0@ != (#[trigger] entries@[b]).0@ by {
                        assert(old_entries[a].0@ != old_entries[b].0@);
                    }
                    assert forall|j: int| 0 <= j < entries@.len() implies target.contains_key(
                        (#[trigger] entries@[j]).0@,
                    ) && target[entries@[j].0@] == doc_view(entries@[j].1) by {
                        if j != i {
                            assert(old_entries[i as int].0@ == uri@);
                        }
                    }
                    assert forall|u: Seq<char>| #[trigger] target.contains_key(u) implies exists|
                        j: int,
                    | 0 <= j < entries@.len() && (#[trigger] entries@[j]).0@ == u by {
                        if u == uri@ {
                            assert(entries@[i as int].0@ == u);
                        } else {
                            let j = choose|j: int|
                                0 <= j < old_entries.len() && (#[trigger] old_entries[j]).0@ == u;
                            assert(entries@[j] == old_entries[j]);
                        }
                    }
                    lemma_map_by_membership(entries@, target);
                }
                true
            },
            None => false,
        };
        self.entries = entries;
        r
    }

    /// The URI, version and text of each open document, one entry per URI.
    pub fn snapshot(&self) -> (r: Vec<(String, i32, String)>)
        ensures
            forall|k: int|
                0 <= k < r@.len() ==> {
                    let e = #[trigger] r@[k];
                    &&& self.documents().contains_key(e.0@)
                    &&& self.documents()[e.0@] == (e.1, e.2@)
                },
            forall|u: Seq<char>|
                #[trigger] self.documents().contains_key(u) ==> exists|k: int|
                    0 <= k < r@.len() && (#[trigger] r@[k]).0@ == u,
            forall|a: int, b: int| 0 <= a < b < r@.len() ==> (#[trigger] r@[a]).0@ != (#[trigger] r@[b]).0@,
    {
        proof {
            use_type_invariant(self);
            lemma_entries_map(self.entries@);
        }
        let mut r: Vec<(String, i32, String)> = Vec::new();
        let mut i: usize = 0;
        while i < self.entries.len()
            invariant
                i <= self.entries@.len(),
                distinct_uris(self.entries@),
                r@.len() == i,
                forall|k: int|
                    0 <= k < i ==> {
                        let e = #[trigger] r@[k];
                        &&& e.0@ == self.entries@[k].0@
                        &&& (e.1, e.2@) == doc_view(self.entries@[k].1)
                    },
            decreases self.entries@.len() - i,
        {
            let e = &self.entries[i];
            r.push((e.0.clone(), e.1.version, e.1.text.clone()));
            i = i + 1;
        }
        proof {
            assert forall|u: Seq<char>| #[trigger] self.documents().contains_key(u) implies exists|
                k: int,
            | 0 <= k < r@.len() && (#[trigger] r@[k]).0@ == u by {
                let j = choose|j: int|
                    0 <= j < self.entries@.len() && (#[trigger] self.entries@[j]).0@ == u;
                assert(r@[j].0@ == u);
            }
            assert forall|a: int, b: int| 0 <= a < b < r@.len() implies (#[trigger] r@[a]).0@
                != (#[trigger] r@[b]).0@ by {
                assert(self.entries@[a].0@ != self.entries@[b].0@);
            }
        }
        r
    }
}

/// What a read gives back of a write: after opening a document under `uri`, the store
/// holds exactly its version and text there, and every other document is unchanged.
pub proof fn law_open_then_get(
    documents: Map<Seq<char>, (i32, Seq<char>)>,
    uri: Seq<char>,
    version: i32,
    text: Seq<char>,
    other: Seq<char>,
)
    requires
        other != uri,
    ensures
        documents.insert(uri, (version, text)).contains_key(uri),
        documents.insert(uri, (version, text))[uri] == (version, text),
        documents.insert(uri, (version, text)).contains_key(other) == documents.contains_key(other),
        documents.contains_key(other) ==> documents.insert(uri, (version, text))[other]
            == documents[other],
{
}

/// After closing `uri` no document is open under it, and the others stay.
pub proof fn law_close_then_get(documents: Map<Seq<char>, (i32, Seq<char>)>, uri: Seq<char>, other: Seq<char>)
    requires
        other != uri,
    ensures
        !documents.remove(uri).contains_key(uri),
        documents.remove(uri).contains_key(other) == documents.contains_key(other),
{
}

/// A full-text change replaces the text whatever it was and completes the update; an
/// incremental change first in line leaves the text as it is and stops the update.
pub proof fn law_changes(text: Seq<char>, full: ContentChange, ranged: ContentChange, rest: Seq<ContentChange>)
    requires
        full.range is None,
        ranged.range is Some,
    ensures
        apply_changes(text, seq![full]) == (full.text@, true),
        apply_changes(text, seq![ranged] + rest) == (text, false),
{
    assert(seq![full].skip(1) =~= Seq::<ContentChange>::empty());
    assert(apply_changes(full.text@, Seq::<ContentChange>::empty()) == (full.text@, true));
    assert((seq![ranged] + rest)[0] == ranged);
}

/// Full-text changes replace one another: after a run of them the text is that of the
/// last one, whatever came before, and the update is complete.
pub proof fn law_last_full_change_wins(text: Seq<char>, changes: Seq<ContentChange>)
    requires
        changes.len() > 0,
        forall|k: int| 0 <= k < changes.len() ==> (#[trigger] changes[k]).range is None,
    ensures
        apply_changes(text, changes) == (changes.last().text@, true),
    decreases changes.len(),
{
    let rest = changes.skip(1);
    if rest.len() == 0 {
        assert(apply_changes(changes[0].text@, rest) == (changes[0].text@, true));
    } else {
        assert forall|k: int| 0 <= k < rest.len() implies (#[trigger] rest[k]).range is None by {
            assert(rest[k] == changes[k + 1]);
        }
        law_last_full_change_wins(changes[0].text@, rest);
        assert(rest.last() == changes.last());
    }
}

} // verus!
