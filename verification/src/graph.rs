//! Building the include-dependency graph.
//!
//! The toolchain is asked, per file, for the list of files it includes (the
//! compiler's dependency-listing mode). Its textual answer is parsed here;
//! the caller runs the toolchain and feeds each answer back. Files are
//! interned into a table of distinct paths, so the graph itself is an
//! adjacency list over file indices, and every file is scanned at most
//! once: sources up front, headers as they are discovered.

use vstd::prelude::*;
use crate::stale::graph_wf;
use crate::text::{first_pos, find_char_from, is_header_path, lemma_dv_strings, spec_is_header,
    spec_split_ws, split_ws, str_eq};

verus! {

broadcast use vstd::seq_lib::lemma_seq_contains_after_push;

/// The part of a dependency listing that names the included files: what
/// stands after the first colon, up to the next colon or the end.
pub open spec fn spec_mm_payload(s: Seq<char>) -> Seq<char> {
    let p = first_pos(s, ':');
    if p < 0 {
        Seq::empty()
    } else {
        let rest = s.skip(p + 1);
        let q = first_pos(rest, ':');
        if q < 0 {
            rest
        } else {
            rest.subrange(0, q)
        }
    }
}

/// The file names a dependency listing reports: the payload split on
/// whitespace. The target file itself is usually among them; line
/// continuations appear as lone backslashes and are dropped later, when
/// paths that do not exist on disk are discarded.
pub open spec fn spec_mm_deps(s: Seq<char>) -> Seq<Seq<char>> {
    spec_split_ws(spec_mm_payload(s))
}

/// Parses the compiler's dependency-listing output into file names.
pub fn parse_mm_deps(out: &str) -> (r: Vec<String>)
    ensures
        r.deep_view() == spec_mm_deps(out@),
{
    let n = out.unicode_len();
    proof {
        assert(out@.skip(0) =~= out@);
    }
    match find_char_from(out, ':', 0) {
        Option::None => {
            let r: Vec<String> = Vec::new();
            proof {
                assert(r.deep_view() =~= Seq::<Seq<char>>::empty());
            }
            r
        },
        Option::Some(p) => {
            let end = match find_char_from(out, ':', p + 1) {
                Option::Some(q) => q,
                Option::None => n,
            };
            let seg = out.substring_char(p + 1, end);
            let r = split_ws(seg);
            proof {
                let rest = out@.skip(p + 1);
                if end < n {
                    assert(rest.subrange(0, end - (p + 1)) =~= out@.subrange(
                        p as int + 1,
                        end as int,
                    ));
                } else {
                    assert(rest =~= out@.subrange(p as int + 1, n as int));
                }
                assert(seg@ == spec_mm_payload(out@));
            }
            r
        },
    }
}

/// A table of interned file paths; indices identify files everywhere else
/// in the engine.
pub struct FileTable {
    pub names: Vec<String>,
}

impl FileTable {
    /// The paths, as sequences of characters, in interning order.
    pub open spec fn view(&self) -> Seq<Seq<char>> {
        self.names.deep_view()
    }

    /// All interned paths are distinct.
    pub open spec fn wf(&self) -> bool {
        forall|i: int, j: int| 0 <= i < j < self@.len() ==> self@[i] != self@[j]
    }

    /// An empty table.
    pub fn new() -> (r: FileTable)
        ensures
            r.wf(),
            r@.len() == 0,
    {
        let r = FileTable { names: Vec::new() };
        proof {
            assert(r@ =~= Seq::<Seq<char>>::empty());
        }
        r
    }

    /// Number of interned files.
    pub fn len(&self) -> (r: usize)
        ensures
            r == self@.len(),
    {
        self.names.len()
    }

    /// The path of file `i`.
    pub fn name(&self, i: usize) -> (r: &str)
        requires
            (i as int) < self@.len(),
        ensures
            r@ == self@[i as int],
    {
        self.names[i].as_str()
    }

    /// The index of `n`, interning it if it is new. Existing entries are
    /// never moved, so indices stay valid.
    pub fn intern(&mut self, n: &str) -> (id: usize)
        requires
            old(self).wf(),
        ensures
            final(self).wf(),
            old(self)@.len() <= final(self)@.len(),
            forall|k: int| 0 <= k < old(self)@.len() ==> final(self)@[k] == old(self)@[k],
            (id as int) < final(self)@.len(),
            final(self)@[id as int] == n@,
            old(self)@.contains(n@) ==> final(self)@ == old(self)@,
            !old(self)@.contains(n@) ==> final(self)@ == old(self)@.push(n@) && id as int == old(self)@.len(),
    {
        let m = self.names.len();
        let mut i: usize = 0;
        proof {
            lemma_dv_strings(&self.names);
        }
        while i < m
            invariant
                self == old(self),
                self.wf(),
                m == self@.len(),
                i <= m,
                forall|k: int| 0 <= k < i ==> self@[k] != n@,
            decreases m - i,
        {
            proof {
                lemma_dv_strings(&self.names);
            }
            if str_eq(self.names[i].as_str(), n) {
                proof {
                    assert(self@[i as int] == n@);
                    assert(self@.contains(n@));
                }
                return i;
            }
            i = i + 1;
        }
        let ghost v0 = self@;
        self.names.push(n.to_owned());
        proof {
            assert(self@ =~= v0.push(n@));
        }
        m
    }
}

/// Incremental construction of the dependency graph. The caller repeatedly
/// takes the next file to scan (`next_query`), runs the toolchain's
/// dependency listing on it, and hands the parsed result back (`record`).
/// A file is handed out for scanning at most once; headers are scheduled
/// when first discovered, every other discovered file stays a leaf.
pub struct GraphBuilder {
    pub files: FileTable,
    pub edges: Vec<Vec<usize>>,
    pub queued: Vec<bool>,
    pub scanned: Vec<bool>,
    pub pending: Vec<usize>,
}

impl GraphBuilder {
    /// Structural invariant: the table, the adjacency list and the flags
    /// describe the same files; pending entries are distinct files that
    /// were scheduled and not yet handed out; a scanned file was scheduled
    /// first, and a scheduled file stays on the work list until it is
    /// handed out — so when the work list is empty, everything scheduled
    /// has been scanned.
    pub open spec fn wf(&self) -> bool {
        &&& self.files.wf()
        &&& self.edges.len() == self.files@.len()
        &&& self.queued.len() == self.files@.len()
        &&& self.scanned.len() == self.files@.len()
        &&& graph_wf(self.edges.deep_view())
        &&& forall|k: int|
            0 <= k < self.pending@.len() ==> (self.pending@[k] as int) < self.files@.len()
                && self.queued@[self.pending@[k] as int] && !self.scanned@[self.pending@[k] as int]
        &&& forall|i: int, j: int|
            0 <= i < j < self.pending@.len() ==> self.pending@[i] != self.pending@[j]
        &&& forall|i: int|
            0 <= i < self.files@.len() ==> (#[trigger] self.scanned@[i] ==> self.queued@[i])
        &&& forall|i: usize|
            (i as int) < self.files@.len() && #[trigger] self.queued@[i as int]
                && !self.scanned@[i as int] ==> self.pending@.contains(i)
    }

    /// Interns a path, keeping the adjacency list and flags in step; new
    /// files start as unscheduled leaves with no recorded includes.
    fn intern_file(&mut self, n: &str) -> (id: usize)
        requires
            old(self).wf(),
        ensures
            final(self).wf(),
            old(self).files@.len() <= final(self).files@.len(),
            forall|k: int|
                0 <= k < old(self).files@.len() ==> final(self).files@[k] == old(self).files@[k],
            (id as int) < final(self).files@.len(),
            final(self).files@[id as int] == n@,
            final(self).pending@ == old(self).pending@,
            final(self).scanned@ == old(self).scanned@ || final(self).scanned@ == old(self).scanned@.push(false),
            forall|j: int|
                0 <= j < old(self).edges.len() ==> final(self).edges.deep_view()[j] == old(self).edges.deep_view()[j],
            forall|j: int|
                old(self).edges.len() <= j < final(self).edges.len() ==> final(self).edges.deep_view()[j] == Seq::<usize>::empty(),
            old(self).files@.contains(n@) ==> final(self).files@ == old(self).files@
                && final(self).edges.deep_view() == old(self).edges.deep_view()
                && final(self).queued@ == old(self).queued@,
            !old(self).files@.contains(n@) ==> (id as int) == old(self).files@.len() && final(self).queued@ == old(self).queued@.push(false),
    {
        let ghost pre = self.files@;
        let id = self.files.intern(n);
        if self.edges.len() < self.files.len() {
            let ghost e0 = self.edges.deep_view();
            self.edges.push(Vec::new());
            self.queued.push(false);
            self.scanned.push(false);
            proof {
                assert(self.edges.deep_view() =~~= e0.push(Seq::<usize>::empty()));
            }
        }
        id
    }

    /// Starts a build: interns every source and schedules each for a
    /// dependency scan (a duplicate source is scheduled once).
    pub fn new_for_sources(sources: &Vec<String>) -> (r: (GraphBuilder, Vec<usize>))
        ensures
            r.0.wf(),
            r.1@.len() == sources@.len(),
            forall|k: int|
                0 <= k < sources@.len() ==> (r.1@[k] as int) < r.0.files@.len()
                    && r.0.files@[r.1@[k] as int] == sources.deep_view()[k],
    {
        let mut b = GraphBuilder {
            files: FileTable::new(),
            edges: Vec::new(),
            queued: Vec::new(),
            scanned: Vec::new(),
            pending: Vec::new(),
        };
        let mut ids: Vec<usize> = Vec::new();
        let mut i: usize = 0;
        while i < sources.len()
            invariant
                b.wf(),
                i <= sources@.len(),
                ids@.len() == i,
                forall|k: int|
                    0 <= k < i ==> ((#[trigger] ids@[k]) as int) < b.files@.len()
                        && b.files@[ids@[k] as int] == sources.deep_view()[k],
            decreases sources@.len() - i,
        {
            proof {
                lemma_dv_strings(sources);
            }
            let ghost fpre = b.files@;
            let id = b.intern_file(sources[i].as_str());
            b.schedule(id);
            proof {
                assert forall|k: int|
                    0 <= k < i implies (ids@[k] as int) < b.files@.len() && b.files@[ids@[k] as int]
                    == sources.deep_view()[k] by {
                    assert((ids@[k] as int) < fpre.len());
                    assert(b.files@[ids@[k] as int] == fpre[ids@[k] as int]);
                }
            }
            ids.push(id);
            i = i + 1;
        }
        (b, ids)
    }

    /// Schedules a file for scanning unless it was ever scheduled before.
    /// Afterwards the file counts as scheduled, whatever its history, and
    /// nothing already waiting is lost.
    fn schedule(&mut self, id: usize)
        requires
            old(self).wf(),
            (id as int) < old(self).files@.len(),
        ensures
            final(self).wf(),
            final(self).files@ == old(self).files@,
            final(self).edges.deep_view() == old(self).edges.deep_view(),
            final(self).scanned@ == old(self).scanned@,
            final(self).queued@.len() == old(self).queued@.len(),
            forall|j: int|
                0 <= j < old(self).queued@.len() && old(self).queued@[j] ==> final(self).queued@[j],
            final(self).queued@[id as int],
            forall|p: usize| old(self).pending@.contains(p) ==> final(self).pending@.contains(p),
    {
        if !self.queued[id] && !self.scanned[id] {
            self.queued.set(id, true);
            self.pending.push(id);
            proof {
                assert forall|k: int, j: int|
                    0 <= k < j < self.pending@.len() implies self.pending@[k]
                    != self.pending@[j] by {
                    if j == self.pending@.len() - 1 {
                        assert(old(self).queued@[old(self).pending@[k] as int]);
                    }
                }
                assert(self.pending@ == old(self).pending@.push(id));
                assert(self.pending@.contains(id));
                assert forall|p: usize|
                    (p as int) < self.files@.len() && #[trigger] self.queued@[p as int]
                    && !self.scanned@[p as int] implies self.pending@.contains(p) by {
                    if p != id {
                        assert(old(self).queued@[p as int]);
                        assert(old(self).pending@.contains(p));
                    }
                }
            }
        }
    }

    /// Hands out the next file to scan, marking it so it is never handed
    /// out again; `None` when every scheduled file has been scanned.
    pub fn next_query(&mut self) -> (r: Option<usize>)
        requires
            old(self).wf(),
        ensures
            final(self).wf(),
            final(self).files@ == old(self).files@,
            final(self).edges.deep_view() == old(self).edges.deep_view(),
            match r {
                Option::Some(id) => (id as int) < final(self).files@.len()
                    && !old(self).scanned@[id as int] && final(self).scanned@[id as int],
                Option::None => final(self).scanned@ == old(self).scanned@ && old(self).pending@.len() == 0,
            },
    {
        match self.pending.pop() {
            Option::None => Option::None,
            Option::Some(id) => {
                self.scanned.set(id, true);
                proof {
                    assert(old(self).pending@[old(self).pending@.len() - 1] == id);
                    assert(old(self).pending@ =~= self.pending@.push(id));
                    assert forall|k: int|
                        0 <= k < self.pending@.len() implies (self.pending@[k] as int)
                        < self.files@.len() && self.queued@[self.pending@[k] as int]
                        && !self.scanned@[self.pending@[k] as int] by {
                        assert(old(self).pending@[k] == self.pending@[k]);
                    }
                    assert forall|p: usize|
                        (p as int) < self.files@.len() && #[trigger] self.queued@[p as int]
                        && !self.scanned@[p as int] implies self.pending@.contains(p) by {
                        assert(p != id);
                        assert(old(self).pending@.contains(p));
                    }
                }
                Option::Some(id)
            },
        }
    }

    /// Records the scan result for one file: its reported includes become
    /// that file's edges (interned in order), every reported header ends up
    /// scheduled for its own scan (or already was), and nothing previously
    /// waiting is lost.
    pub fn record(&mut self, id: usize, deps: &Vec<String>)
        requires
            old(self).wf(),
            (id as int) < old(self).files@.len(),
        ensures
            final(self).wf(),
            forall|p: usize| old(self).pending@.contains(p) ==> final(self).pending@.contains(p),
            forall|k: int|
                0 <= k < deps@.len() && spec_is_header(deps.deep_view()[k]) ==> final(self).queued@[final(self).edges.deep_view()[id as int][k] as int],
            old(self).files@.len() <= final(self).files@.len(),
            forall|k: int|
                0 <= k < old(self).files@.len() ==> final(self).files@[k] == old(self).files@[k],
            (id as int) < final(self).files@.len(),
            final(self).edges.deep_view()[id as int].len() == deps@.len(),
            forall|k: int|
                0 <= k < deps@.len() ==> (final(self).edges.deep_view()[id as int][k] as int)
                    < final(self).files@.len() && final(self).files@[final(self).edges.deep_view()[id as int][k] as int] == deps.deep_view()[k],
            forall|j: int|
                0 <= j < old(self).edges.len() && j != id as int ==> final(self).edges.deep_view()[j]
                    == old(self).edges.deep_view()[j],
            forall|j: int|
                old(self).edges.len() <= j < final(self).edges.len() ==> final(self).edges.deep_view()[j]
                    == Seq::<usize>::empty(),
    {
        let mut ids: Vec<usize> = Vec::new();
        let mut i: usize = 0;
        while i < deps.len()
            invariant
                self.wf(),
                old(self).files@.len() <= self.files@.len(),
                forall|k: int| 0 <= k < old(self).files@.len() ==> self.files@[k] == old(self).files@[k],
                (id as int) < self.files@.len(),
                i <= deps@.len(),
                ids@.len() == i,
                forall|p: usize| old(self).pending@.contains(p) ==> self.pending@.contains(p),
                forall|k: int|
                    0 <= k < i && spec_is_header(deps.deep_view()[k]) ==> self.queued@[ids@[k] as int],
                forall|k: int|
                    0 <= k < i ==> ((#[trigger] ids@[k]) as int) < self.files@.len()
                        && self.files@[ids@[k] as int] == deps.deep_view()[k],
                old(self).edges.len() <= self.edges.len(),
                forall|j: int|
                    0 <= j < old(self).edges.len() ==> self.edges.deep_view()[j] == old(self).edges.deep_view()[j],
                forall|j: int|
                    old(self).edges.len() <= j < self.edges.len() ==> self.edges.deep_view()[j]
                        == Seq::<usize>::empty(),
            decreases deps@.len() - i,
        {
            proof {
                lemma_dv_strings(deps);
            }
            let ghost fpre = self.files@;
            let ghost qpre = self.queued@;
            let dep = deps[i].as_str();
            let dep_id = self.intern_file(dep);
            let header = is_header_path(dep);
            if header {
                self.schedule(dep_id);
            }
            proof {
                assert forall|k: int|
                    0 <= k < i implies (ids@[k] as int) < self.files@.len()
                    && self.files@[ids@[k] as int] == deps.deep_view()[k] by {
                    assert((ids@[k] as int) < fpre.len());
                    assert(self.files@[ids@[k] as int] == fpre[ids@[k] as int]);
                }
                assert forall|k: int|
                    0 <= k < i && spec_is_header(deps.deep_view()[k]) implies self.queued@[ids@[k] as int] by {
                    assert(qpre[ids@[k] as int]);
                }
                if header {
                    assert(self.queued@[dep_id as int]);
                }
            }
            ids.push(dep_id);
            i = i + 1;
        }
        let ghost e0 = self.edges.deep_view();
        let ghost idsv = ids@;
        let ghost n = self.files@.len();
        self.edges.set(id, ids);
        proof {
            assert(self.edges.deep_view() =~~= e0.update(id as int, idsv));
            assert forall|j: int, y: usize|
                0 <= j < self.edges.deep_view().len() && #[trigger] self.edges.deep_view()[j].contains(
                    y,
                ) implies (y as int) < n by {
                if j == id as int {
                    let k = choose|k: int| 0 <= k < idsv.len() && idsv[k] == y;
                    assert((idsv[k] as int) < n);
                } else {
                    assert(e0[j].contains(y));
                }
            }
            assert forall|k: int|
                0 <= k < deps@.len() && spec_is_header(deps.deep_view()[k]) implies self.queued@[self.edges.deep_view()[id as int][k] as int] by {
                assert(self.edges.deep_view()[id as int][k] == idsv[k]);
            }
        }
    }
}

/// When the work list has been drained, every file that was ever
/// scheduled — every source, and every header `record` discovered — has
/// been handed out for its scan: nothing scheduled is left unscanned.
pub proof fn lemma_drained_builder_scanned_all(b: &GraphBuilder)
    requires
        b.wf(),
        b.pending@.len() == 0,
    ensures
        forall|i: int| 0 <= i < b.files@.len() && #[trigger] b.queued@[i] ==> b.scanned@[i],
{
    assert forall|i: int| 0 <= i < b.files@.len() && #[trigger] b.queued@[i] implies b.scanned@[i] by {
        if !b.scanned@[i] {
            assert(b.pending@.contains(i as usize));
        }
    }
}

} // verus!
