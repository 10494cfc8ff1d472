//! The lists of puzzles: what the network offers and what is installed.

use vstd::prelude::*;
use crate::installation::Installation;
use crate::messages::{CurrentPuzzle, OpenPuzzleById};
use crate::vec_map::VecMap;

verus! {

/// One puzzle that the network offers.
pub struct PuzzleManifestInfo {
    pub short_name: String,
    pub title: String,
}

impl PuzzleManifestInfo {
    pub fn new(short_name: String, title: String) -> (info: PuzzleManifestInfo)
        ensures
            info.short_name == short_name,
            info.title == title,
    {
        PuzzleManifestInfo { short_name, title }
    }
}

/// The puzzles that the network offers, in the order of the manifest file.
pub struct Manifest {
    pub puzzles: Vec<PuzzleManifestInfo>,
}

impl Manifest {
    /// A manifest without puzzles.
    pub fn new() -> (m: Manifest)
        ensures
            m.puzzles@.len() == 0,
    {
        Manifest { puzzles: Vec::new() }
    }

    /// The puzzle with the number `idx`.
    pub fn get(&self, idx: usize) -> (info: Option<&PuzzleManifestInfo>)
        ensures
            match info {
                Some(info) => idx < self.puzzles@.len() && *info == self.puzzles@[idx as int],
                None => idx >= self.puzzles@.len(),
            },
    {
        if idx < self.puzzles.len() {
            Some(&self.puzzles[idx])
        } else {
            None
        }
    }
}

impl Default for Manifest {
    fn default() -> (m: Manifest)
        ensures
            m.puzzles@.len() == 0,
    {
        Manifest::new()
    }
}

/// One puzzle that is installed.
pub struct PuzzleInstallInfo {
    pub title: String,
    pub short_name: String,
}

impl PuzzleInstallInfo {
    pub fn new(title: String, short_name: String) -> (info: PuzzleInstallInfo)
        ensures
            info.title == title,
            info.short_name == short_name,
    {
        PuzzleInstallInfo { title, short_name }
    }
}

/// The installed puzzles by number.
pub struct PuzzleManifest {
    entries: VecMap<usize, PuzzleInstallInfo>,
}

/// `s` ascends strictly.
pub open spec fn ascending(s: Seq<usize>) -> bool {
    forall|i: int, j: int| 0 <= i < j < s.len() ==> s[i] < s[j]
}

/// The numbers of `keys`, no two of them equal, in ascending order.
fn sorted_ids(keys: &Vec<usize>) -> (sorted: Vec<usize>)
    requires
        keys@.no_duplicates(),
    ensures
        ascending(sorted@),
        sorted@.len() == keys@.len(),
        sorted@.to_set() == keys@.to_set(),
{
    let mut sorted: Vec<usize> = Vec::new();
    let mut k: usize = 0;
    assert(sorted@.to_set() =~= keys@.take(0).to_set());
    while k < keys.len()
        invariant
            0 <= k <= keys@.len(),
            keys@.no_duplicates(),
            ascending(sorted@),
            sorted@.len() == k,
            sorted@.to_set() == keys@.take(k as int).to_set(),
        decreases keys@.len() - k,
    {
        let x = keys[k];
        let mut pos: usize = 0;
        while pos < sorted.len() && sorted[pos] < x
            invariant
                0 <= pos <= sorted@.len(),
                forall|i: int| 0 <= i < pos ==> sorted@[i] < x,
            decreases sorted@.len() - pos,
        {
            pos += 1;
        }
        let ghost before = sorted@;
        proof {
            assert(!before.contains(x)) by {
                if before.contains(x) {
                    assert(before.to_set().contains(x));
                    assert(keys@.take(k as int).contains(x));
                    let head = keys@.take(k as int);
                    let i = choose|i: int| 0 <= i < head.len() && head[i] == x;
                    assert(keys@[i] == keys@[k as int]);
                }
            }
            if pos < before.len() {
                assert(before.contains(before[pos as int]));
                assert(before[pos as int] != x);
            }
        }
        sorted.insert(pos, x);
        proof {
            assert forall|i: int, j: int| 0 <= i < j < sorted@.len() implies sorted@[i]
                < sorted@[j] by {
                let bi = if i < pos { i } else { i - 1 };
                let bj = if j < pos { j } else { j - 1 };
                if i != pos && j != pos {
                    assert(before[bi] < before[bj]);
                } else if i == pos {
                    assert(before[bj] >= before[pos as int]);
                }
            }
            assert forall|v: usize|
                sorted@.to_set().contains(v) <==> keys@.take(k + 1).to_set().contains(v) by {
                if sorted@.contains(v) {
                    let i = choose|i: int| 0 <= i < sorted@.len() && sorted@[i] == v;
                    if i != pos {
                        let bi = if i < pos { i } else { i - 1 };
                        assert(before[bi] == v);
                        assert(before.to_set().contains(v));
                        let head = keys@.take(k as int);
                        let w = choose|w: int| 0 <= w < head.len() && head[w] == v;
                        assert(keys@.take(k + 1)[w] == v);
                    } else {
                        assert(keys@.take(k + 1)[k as int] == v);
                    }
                }
                if keys@.take(k + 1).contains(v) {
                    let more = keys@.take(k + 1);
                    let w = choose|w: int| 0 <= w < more.len() && more[w] == v;
                    if w < k {
                        assert(keys@.take(k as int)[w] == v);
                        assert(before.to_set().contains(v));
                        let i = choose|i: int| 0 <= i < before.len() && before[i] == v;
                        let si = if i < pos { i } else { i + 1 };
                        assert(sorted@[si] == v);
                    } else {
                        assert(sorted@[pos as int] == v);
                    }
                }
            }
            assert(sorted@.to_set() =~= keys@.take(k + 1).to_set());
        }
        k += 1;
    }
    assert(keys@.take(k as int) =~= keys@);
    sorted
}

impl PuzzleManifest {
    /// The installed puzzles by number.
    pub closed spec fn map(&self) -> Map<usize, PuzzleInstallInfo> {
        self.entries.map()
    }

    /// No number is held twice.
    pub closed spec fn wf(&self) -> bool {
        self.entries.wf()
    }

    pub fn new() -> (m: PuzzleManifest)
        ensures
            m.wf(),
            m.map() == Map::<usize, PuzzleInstallInfo>::empty(),
    {
        PuzzleManifest { entries: VecMap::new() }
    }

    /// Lists the puzzle `info` under the number `id`, in place of one that
    /// has this number already.
    pub fn insert(&mut self, id: usize, info: PuzzleInstallInfo)
        requires
            old(self).wf(),
        ensures
            final(self).wf(),
            final(self).map() == old(self).map().insert(id, info),
    {
        self.entries.insert(id, info);
    }

    /// The puzzle with the number `id`.
    pub fn get(&self, id: usize) -> (info: Option<&PuzzleInstallInfo>)
        requires
            self.wf(),
        ensures
            match info {
                Some(info) => self.map().dom().contains(id) && *info == self.map()[id],
                None => !self.map().dom().contains(id),
            },
    {
        self.entries.get(&id)
    }

    /// Every installed puzzle with its number, by ascending number.
    pub fn sorted_list(&self) -> (list: Vec<(usize, &PuzzleInstallInfo)>)
        requires
            self.wf(),
        ensures
            list@.len() == self.map().dom().len(),
            forall|i: int, j: int| 0 <= i < j < list@.len() ==> list@[i].0 < list@[j].0,
            forall|i: int|
                0 <= i < list@.len() ==> self.map().dom().contains((#[trigger] list@[i]).0)
                    && *list@[i].1 == self.map()[list@[i].0],
            forall|id: usize|
                self.map().dom().contains(id) ==> exists|i: int|
                    0 <= i < list@.len() && (#[trigger] list@[i]).0 == id,
    {
        let mut keys: Vec<usize> = Vec::new();
        let n = self.entries.len();
        let mut k: usize = 0;
        while k < n
            invariant
                0 <= k <= n,
                n == self.entries.keys().len(),
                keys@ == self.entries.keys().take(k as int),
            decreases n - k,
        {
            keys.push(self.entries.key_at(k));
            assert(self.entries.keys().take(k + 1) =~= self.entries.keys().take(k as int).push(
                self.entries.keys()[k as int],
            ));
            k += 1;
        }
        proof {
            assert(self.entries.keys().take(n as int) =~= self.entries.keys());
            self.entries.lemma_entries();
            keys@.unique_seq_to_set();
        }
        let sorted = sorted_ids(&keys);
        let mut list: Vec<(usize, &PuzzleInstallInfo)> = Vec::new();
        let mut i: usize = 0;
        while i < sorted.len()
            invariant
                0 <= i <= sorted@.len(),
                self.wf(),
                sorted@.to_set() == self.map().dom(),
                list@.len() == i,
                forall|j: int| 0 <= j < i ==> (#[trigger] list@[j]).0 == sorted@[j],
                forall|j: int|
                    0 <= j < i ==> self.map().dom().contains((#[trigger] list@[j]).0) && *list@[j].1
                        == self.map()[list@[j].0],
            decreases sorted@.len() - i,
        {
            let id = sorted[i];
            proof {
                assert(sorted@.contains(sorted@[i as int]));
                assert(sorted@.to_set().contains(id));
            }
            match self.entries.get(&id) {
                Some(info) => {
                    list.push((id, info));
                },
                None => {
                    assert(false);
                },
            }
            i += 1;
        }
        proof {
            assert forall|id: usize| self.map().dom().contains(id) implies exists|w: int|
                0 <= w < list@.len() && (#[trigger] list@[w]).0 == id by {
                assert(sorted@.to_set().contains(id));
                let w = choose|w: int| 0 <= w < sorted@.len() && sorted@[w] == id;
                assert(list@[w].0 == id);
            }
        }
        list
    }
}

/// The file in which the progress with the open puzzle is kept: none where
/// no puzzle is open or the manifest does not list the open one.
pub fn autosave_target(current: &CurrentPuzzle, manifest: &Manifest, install: &Installation) -> (path:
    Option<String>)
    ensures
        match path {
            Some(path) => current.0.is_some() && current.0.unwrap() < manifest.puzzles@.len()
                && path@ == install.save_data_file_text(
                manifest.puzzles@[current.0.unwrap() as int].short_name@,
            ),
            None => current.0.is_none() || current.0.unwrap() >= manifest.puzzles@.len(),
        },
{
    match current.0 {
        Some(id) => match manifest.get(id) {
            Some(info) => Some(install.save_data_file(info.short_name.as_str())),
            None => None,
        },
        None => None,
    }
}

/// The two files of a puzzle to open.
pub struct PuzzleFiles {
    /// The file of the puzzle.
    pub puzzle: String,
    /// The file with the player's progress.
    pub save_data: String,
}

/// The files of the puzzle that `msg` asks to open: none where that puzzle
/// is not installed.
pub fn open_target(list: &PuzzleManifest, install: &Installation, msg: &OpenPuzzleById) -> (files:
    Option<PuzzleFiles>)
    requires
        list.wf(),
    ensures
        match files {
            Some(files) => list.map().dom().contains(msg.0) && files.puzzle@
                == install.puzzle_file_text(list.map()[msg.0].short_name@) && files.save_data@
                == install.save_data_file_text(list.map()[msg.0].short_name@),
            None => !list.map().dom().contains(msg.0),
        },
{
    match list.get(msg.0) {
        Some(info) => Some(
            PuzzleFiles {
                puzzle: install.puzzle_file(info.short_name.as_str()),
                save_data: install.save_data_file(info.short_name.as_str()),
            },
        ),
        None => None,
    }
}

} // verus!
