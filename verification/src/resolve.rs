//! Traversal of a manifest and the manifests that it includes, depth
//! first, over an explicit stack of open manifests.

use vstd::prelude::*;
use vstd::string::*;
use crate::pkgmf::{
    lemma_next_entry, next_entry, read_entry, texts, Entry, EntryView, MacroLookup,
};
use crate::text::{chars_of, join_path, joined_path, same_text};

verus! {

/// One open manifest: its canonical path, its lines, and how far it has
/// been read.
pub struct Frame {
    pub path: String,
    pub input: Vec<String>,
    pub pos: usize,
}

/// The open manifests, the one that is being read last, with the directory
/// that include names are relative to and the source of macro values.
pub struct Resolver<L> {
    pub dir: String,
    pub frames: Vec<Frame>,
    pub lookup: L,
}

/// What a traversal does next.
#[derive(Debug, PartialEq)]
pub enum Step {
    /// A directory, file or link entry, to be handed on.
    Entry(Entry),
    /// The manifest at this path is to be opened and entered.
    Include(String),
    /// Every manifest has been read to its end.
    Done,
}

/// Why a manifest is not entered.
#[derive(Debug, PartialEq, Eq)]
pub enum ResolveError {
    /// The manifest at this canonical path is open already.
    IncludeLoop(String),
}

/// The next entry at or after `pos` that is not unknown, with the position
/// behind it.
pub open spec fn next_known(
    lines: Seq<Seq<char>>,
    pos: int,
    table: Map<Seq<char>, Seq<char>>,
) -> Option<(EntryView, int)>
    decreases lines.len() - pos,
    via next_known_decreases
{
    match next_entry(lines, pos, table) {
        None => None,
        Some((e, next)) => if e is Unknown {
            next_known(lines, next, table)
        } else {
            Some((e, next))
        },
    }
}

#[via_fn]
proof fn next_known_decreases(lines: Seq<Seq<char>>, pos: int, table: Map<Seq<char>, Seq<char>>) {
    if pos >= 0 {
        lemma_next_entry(lines, pos, table);
    }
}

/// No unknown entry is ever handed on, and what is handed on stands behind
/// `pos`.
pub proof fn lemma_next_known(lines: Seq<Seq<char>>, pos: int, table: Map<Seq<char>, Seq<char>>)
    requires
        0 <= pos,
    ensures
        next_known(lines, pos, table) matches Some((e, next)) ==> !(e is Unknown) && pos < next
            <= lines.len(),
    decreases lines.len() - pos,
{
    lemma_next_entry(lines, pos, table);
    match next_entry(lines, pos, table) {
        None => {},
        Some((e, next)) => {
            if e is Unknown {
                lemma_next_known(lines, next, table);
            }
        },
    }
}

impl Frame {
    /// What the frame yields next: its next entry that is not unknown, and
    /// the position behind it.
    pub open spec fn pending(self, table: Map<Seq<char>, Seq<char>>) -> Option<(EntryView, int)> {
        next_known(texts(self.input@), self.pos as int, table)
    }
}

/// Whether one of the frames has the path `path`.
pub open spec fn has_path(frames: Seq<Frame>, path: Seq<char>) -> bool {
    exists|i: int| 0 <= i < frames.len() && (#[trigger] frames[i]).path@ == path
}

/// No path occurs twice among the frames.
pub open spec fn distinct_paths(frames: Seq<Frame>) -> bool {
    forall|i: int, j: int|
        0 <= i < j < frames.len() ==> (#[trigger] frames[i]).path@ != (#[trigger] frames[j]).path@
}

/// A manifest that is not open can be opened: the open manifests stay
/// distinct, and it is open afterwards, so that it cannot be opened again
/// before it is closed.
pub proof fn lemma_push_distinct(frames: Seq<Frame>, f: Frame)
    requires
        distinct_paths(frames),
        !has_path(frames, f.path@),
    ensures
        distinct_paths(frames.push(f)),
        has_path(frames.push(f), f.path@),
{
    let after = frames.push(f);
    assert(after[frames.len() as int] == f);
    assert forall|i: int, j: int| 0 <= i < j < after.len() implies (#[trigger] after[i]).path@ != (
    #[trigger] after[j]).path@ by {
        assert(after[i] == frames[i]);
    }
}

/// The next entry of `lines` at or after `*pos` that is not unknown.
fn read_known<L: MacroLookup>(lines: &Vec<String>, pos: &mut usize, lookup: &L) -> (r: Option<
    Entry,
>)
    ensures
        *old(pos) <= *final(pos),
        match r {
            Some(e) => next_known(texts(lines@), *old(pos) as int, lookup.table()) == Some(
                (e@, *final(pos) as int),
            ),
            None => next_known(texts(lines@), *old(pos) as int, lookup.table()) is None,
        },
{
    let ghost all = texts(lines@);
    let ghost begin = *pos as int;
    loop
        invariant
            all == texts(lines@),
            begin == *old(pos),
            begin <= *pos,
            next_known(all, *pos as int, lookup.table()) == next_known(all, begin, lookup.table()),
        decreases lines@.len() - *pos,
    {
        proof {
            lemma_next_entry(all, *pos as int, lookup.table());
        }
        match read_entry(lines, pos, lookup) {
            None => {
                return None;
            },
            Some(Entry::Unknown(_)) => {},
            Some(e) => {
                return Some(e);
            },
        }
    }
}

impl<L: MacroLookup> Resolver<L> {
    /// The state that holds of every traversal: no manifest is open twice.
    pub open spec fn wf(&self) -> bool {
        distinct_paths(self.frames@)
    }

    /// Whether the manifest at `path` is open.
    pub open spec fn is_open(&self, path: Seq<char>) -> bool {
        has_path(self.frames@, path)
    }

    /// Whether this state is `before` after the entry `e` was taken: the
    /// frames above the one that yields `e` had nothing left and are gone,
    /// that frame has moved behind `e`, and the frames below are as they
    /// were.
    pub open spec fn follows(&self, before: &Self, e: EntryView) -> bool {
        let k = self.frames@.len() - 1;
        &&& 0 <= k < before.frames@.len()
        &&& self.frames@.take(k) == before.frames@.take(k)
        &&& forall|j: int|
            k < j < before.frames@.len() ==> (#[trigger] before.frames@[j]).pending(
                before.lookup.table(),
            ) is None
        &&& self.frames@[k].path == before.frames@[k].path
        &&& self.frames@[k].input == before.frames@[k].input
        &&& before.frames@[k].pending(before.lookup.table()) == Some(
            (e, self.frames@[k].pos as int),
        )
    }

    /// Depth first: while the manifest that was opened last has an entry
    /// left, that entry is the next one, and no manifest is closed.
    pub proof fn lemma_last_opened_goes_first(&self, before: &Self, e: EntryView)
        requires
            self.follows(before, e),
            before.frames@.len() > 0,
            before.frames@.last().pending(before.lookup.table()) is Some,
        ensures
            self.frames@.len() == before.frames@.len(),
            before.frames@.last().pending(before.lookup.table()) == Some(
                (e, self.frames@.last().pos as int),
            ),
    {
    }

    /// Document order: once the manifest that was opened last has nothing
    /// left, the traversal goes on as the manifests below it alone would.
    pub proof fn lemma_resumes_below(&self, before: &Self, below: &Self, e: EntryView)
        requires
            self.follows(before, e),
            before.frames@.len() > 0,
            before.frames@.last().pending(before.lookup.table()) is None,
            below.frames@ == before.frames@.drop_last(),
            below.lookup == before.lookup,
        ensures
            self.follows(below, e),
    {
        let k = self.frames@.len() - 1;
        assert(below.frames@.take(k) =~= before.frames@.take(k));
        assert forall|j: int| k < j < below.frames@.len() implies (#[trigger] below.frames@[j]).pending(
            below.lookup.table(),
        ) is None by {
            assert(below.frames@[j] == before.frames@[j]);
        }
    }

    /// A traversal that starts with the manifest at the canonical path
    /// `path`, whose lines are `input`. Include names are relative to `dir`.
    pub fn new(dir: String, path: String, input: Vec<String>, lookup: L) -> (r: Self)
        ensures
            r.wf(),
            r.dir == dir,
            r.lookup == lookup,
            r.frames@ == seq![Frame { path, input, pos: 0 }],
    {
        let mut frames: Vec<Frame> = Vec::new();
        frames.push(Frame { path, input, pos: 0 });
        Resolver { dir, frames, lookup }
    }

    /// What the traversal does next. The manifest that was opened last is
    /// read on; where it has nothing left it is closed and the one below it
    /// is read on. Unknown entries are passed over. An include entry gives
    /// the path to open: its name below the directory of the traversal.
    pub fn step(&mut self) -> (r: Step)
        ensures
            old(self).wf() ==> final(self).wf(),
            final(self).dir == old(self).dir,
            final(self).lookup == old(self).lookup,
            match r {
                Step::Entry(e) => final(self).follows(old(self), e@) && e@.path() is Some,
                Step::Include(p) => exists|name: Seq<char>|
                    final(self).follows(old(self), EntryView::Include(name)) && p@ == joined_path(
                        old(self).dir@,
                        name,
                    ),
                Step::Done => final(self).frames@.len() == 0 && forall|j: int|
                    0 <= j < old(self).frames@.len() ==> (#[trigger] old(self).frames@[j]).pending(
                        old(self).lookup.table(),
                    ) is None,
            },
    {
        loop
            invariant
                self.dir == old(self).dir,
                self.lookup == old(self).lookup,
                self.frames@.len() <= old(self).frames@.len(),
                self.frames@ == old(self).frames@.take(self.frames@.len() as int),
                forall|j: int|
                    self.frames@.len() <= j < old(self).frames@.len() ==> (
                    #[trigger] old(self).frames@[j]).pending(old(self).lookup.table()) is None,
            decreases self.frames@.len(),
        {
            match self.frames.pop() {
                None => {
                    return Step::Done;
                },
                Some(frame) => {
                    let ghost k = self.frames@.len() as int;
                    let Frame { path, input, pos } = frame;
                    let mut pos: usize = pos;
                    match read_known(&input, &mut pos, &self.lookup) {
                        None => {},
                        Some(e) => {
                            proof {
                                lemma_next_known(
                                    texts(input@),
                                    frame.pos as int,
                                    self.lookup.table(),
                                );
                            }
                            self.frames.push(Frame { path, input, pos });
                            assert(self.frames@.take(k) =~= old(self).frames@.take(k));
                            assert forall|i: int, j: int|
                                old(self).wf() && 0 <= i < j < self.frames@.len() implies (
                            #[trigger] self.frames@[i]).path@ != (
                            #[trigger] self.frames@[j]).path@ by {
                                assert(self.frames@[i].path == old(self).frames@[i].path);
                            }
                            match e {
                                Entry::Include(name) => {
                                    let p = join_path(self.dir.as_str(), name.as_str());
                                    return Step::Include(p);
                                },
                                other => {
                                    return Step::Entry(other);
                                },
                            }
                        },
                    }
                },
            }
        }
    }

    /// Whether the manifest at the canonical path `path` is open.
    pub fn on_stack(&self, path: &str) -> (r: bool)
        ensures
            r == self.is_open(path@),
    {
        let p = chars_of(path);
        let mut i: usize = 0;
        while i < self.frames.len()
            invariant
                i <= self.frames@.len(),
                p@ == path@,
                forall|k: int| 0 <= k < i ==> (#[trigger] self.frames@[k]).path@ != path@,
            decreases self.frames@.len() - i,
        {
            if same_text(&p, self.frames[i].path.as_str()) {
                return true;
            }
            i += 1;
        }
        false
    }

    /// Enters the included manifest at the canonical path `path`, whose
    /// lines are `input`. A manifest that is open already is not entered
    /// again: that is an include loop, and the traversal stays as it was.
    pub fn enter(&mut self, path: String, input: Vec<String>) -> (r: Result<(), ResolveError>)
        ensures
            old(self).wf() ==> final(self).wf(),
            final(self).dir == old(self).dir,
            final(self).lookup == old(self).lookup,
            match r {
                Ok(_) => !old(self).is_open(path@) && final(self).frames@ == old(
                    self,
                ).frames@.push(Frame { path, input, pos: 0 }),
                Err(ResolveError::IncludeLoop(p)) => old(self).is_open(path@) && p == path
                    && final(self).frames@ == old(self).frames@,
            },
    {
        if self.on_stack(path.as_str()) {
            return Err(ResolveError::IncludeLoop(path));
        }
        self.frames.push(Frame { path, input, pos: 0 });
        Ok(())
    }
}

} // verus!
