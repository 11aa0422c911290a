//! A deterministic in-memory file tree, the model mount that ledger
//! conformance tests supply in place of a host directory.
use vstd::prelude::*;

use crate::script::names_view;
use crate::text::{chars_of, lex_less, lex_lt, lemma_lex_order, lemma_lex_trans, str_is};

verus! {

broadcast use vstd::string::group_string_axioms;

/// Why a mount operation failed.
#[derive(Clone, Copy, Debug, PartialEq, Eq, Structural)]
pub enum MountErrorKind {
    /// No file at the path.
    NotFound,
    /// The caller cancelled the operation.
    Cancelled,
}

/// A failed mount operation.
#[derive(Clone, Debug, PartialEq, Eq)]
pub struct MountError {
    /// Why it failed.
    pub kind: MountErrorKind,
    /// What happened, for people.
    pub message: String,
}

/// One file of a directory listing.
#[derive(Clone, Debug, PartialEq, Eq)]
pub struct MountEntry {
    /// File name within its directory.
    pub name: String,
    /// File length in bytes.
    pub len: u64,
}

/// An in-memory tree of files keyed by path.
#[derive(Debug)]
pub struct ModelMount {
    files: Vec<(Vec<String>, Vec<u8>)>,
    label: String,
}

/// The path of a stored file.
pub open spec fn path_of(f: (Vec<String>, Vec<u8>)) -> Seq<Seq<char>> {
    names_view(f.0@)
}

/// The stored files as paths and contents.
pub open spec fn files_view(files: Seq<(Vec<String>, Vec<u8>)>) -> Seq<(Seq<Seq<char>>, Seq<u8>)> {
    files.map_values(|f: (Vec<String>, Vec<u8>)| (path_of(f), f.1@))
}

/// The files as a map from path to contents.
pub open spec fn files_map(v: Seq<(Seq<Seq<char>>, Seq<u8>)>) -> Map<Seq<Seq<char>>, Seq<u8>>
    decreases v.len(),
{
    if v.len() == 0 {
        Map::empty()
    } else {
        files_map(v.drop_last()).insert(v.last().0, v.last().1)
    }
}

/// Whether no two stored files share a path.
pub open spec fn unique_paths(v: Seq<(Seq<Seq<char>>, Seq<u8>)>) -> bool {
    forall|i: int, j: int| 0 <= i < v.len() && 0 <= j < v.len() && i != j ==> v[i].0 != v[j].0
}

/// Whether `p` begins with `prefix`.
pub open spec fn path_starts_with(p: Seq<Seq<char>>, prefix: Seq<Seq<char>>) -> bool {
    prefix.len() <= p.len() && p.take(prefix.len() as int) == prefix
}

/// Whether a stored file lies outside directory `d`.
pub open spec fn outside_dir(d: Seq<Seq<char>>) -> spec_fn((Seq<Seq<char>>, Seq<u8>)) -> bool {
    |y: (Seq<Seq<char>>, Seq<u8>)| !path_starts_with(y.0, d)
}

/// Whether `p` names a file directly inside directory `dir`.
pub open spec fn is_child(p: Seq<Seq<char>>, dir: Seq<Seq<char>>) -> bool {
    p.len() == dir.len() + 1 && path_starts_with(p, dir)
}

proof fn lemma_files_map(v: Seq<(Seq<Seq<char>>, Seq<u8>)>)
    requires
        unique_paths(v),
    ensures
        forall|p: Seq<Seq<char>>| files_map(v).dom().contains(p) <==> exists|i: int| 0 <= i < v.len() && (#[trigger] v[i]).0 == p,
        forall|i: int| 0 <= i < v.len() ==> files_map(v)[(#[trigger] v[i]).0] == v[i].1,
    decreases v.len(),
{
    if v.len() > 0 {
        let t = v.drop_last();
        assert(unique_paths(t)) by {
            assert forall|i: int, j: int| 0 <= i < t.len() && 0 <= j < t.len() && i != j implies t[i].0 != t[j].0 by {
                assert(t[i] == v[i] && t[j] == v[j]);
            }
        }
        lemma_files_map(t);
        assert forall|p: Seq<Seq<char>>| files_map(v).dom().contains(p) <==> exists|i: int| 0 <= i < v.len() && (#[trigger] v[i]).0 == p by {
            if files_map(t).dom().contains(p) {
                let i = choose|i: int| 0 <= i < t.len() && (#[trigger] t[i]).0 == p;
                assert(v[i] == t[i]);
            }
            if exists|i: int| 0 <= i < v.len() && (#[trigger] v[i]).0 == p {
                let i = choose|i: int| 0 <= i < v.len() && (#[trigger] v[i]).0 == p;
                if i < t.len() {
                    assert(t[i] == v[i]);
                }
            }
        }
        assert forall|i: int| 0 <= i < v.len() implies files_map(v)[(#[trigger] v[i]).0] == v[i].1 by {
            if i < t.len() {
                assert(t[i] == v[i]);
                assert(v[i].0 != v[v.len() - 1].0);
            }
        }
    }
}

/// Whether two paths are the same.
fn same_path(a: &[String], b: &[String]) -> (r: bool)
    ensures
        r == (names_view(a@) == names_view(b@)),
{
    if a.len() != b.len() {
        assert(names_view(a@).len() != names_view(b@).len());
        return false;
    }
    let mut i: usize = 0;
    while i < a.len()
        invariant
            i <= a.len() == b.len(),
            forall|k: int| 0 <= k < i ==> a@[k]@ == b@[k]@,
        decreases a.len() - i,
    {
        if !str_is(a[i].as_str(), b[i].as_str()) {
            assert(names_view(a@)[i as int] != names_view(b@)[i as int]);
            return false;
        }
        i += 1;
    }
    assert(names_view(a@) =~= names_view(b@));
    true
}

/// Whether path `p` begins with `prefix`.
fn starts_with_path(p: &[String], prefix: &[String]) -> (r: bool)
    ensures
        r == path_starts_with(names_view(p@), names_view(prefix@)),
{
    if prefix.len() > p.len() {
        return false;
    }
    let mut i: usize = 0;
    while i < prefix.len()
        invariant
            i <= prefix.len() <= p.len(),
            forall|k: int| 0 <= k < i ==> p@[k]@ == prefix@[k]@,
        decreases prefix.len() - i,
    {
        if !str_is(p[i].as_str(), prefix[i].as_str()) {
            assert(names_view(p@).take(prefix.len() as int)[i as int] != names_view(prefix@)[i as int]);
            return false;
        }
        i += 1;
    }
    assert(names_view(p@).take(prefix.len() as int) =~= names_view(prefix@));
    true
}

/// A deep copy of a path.
fn copy_path(p: &[String]) -> (r: Vec<String>)
    ensures
        names_view(r@) == names_view(p@),
{
    let mut r: Vec<String> = Vec::new();
    let mut i: usize = 0;
    while i < p.len()
        invariant
            i <= p.len(),
            names_view(r@) == names_view(p@.take(i as int)),
        decreases p.len() - i,
    {
        let c = p[i].clone();
        assert(c@ == p@[i as int]@);
        r.push(c);
        assert(names_view(p@.take(i + 1)) =~= names_view(p@.take(i as int)).push(p@[i as int]@));
        assert(names_view(r@) =~= names_view(p@.take(i + 1)));
        i += 1;
    }
    assert(p@.take(p.len() as int) =~= p@);
    r
}

/// A copy of some bytes.
fn copy_bytes(b: &[u8]) -> (r: Vec<u8>)
    ensures
        r@ == b@,
{
    let mut r: Vec<u8> = Vec::new();
    let mut i: usize = 0;
    while i < b.len()
        invariant
            i <= b.len(),
            r@ == b@.take(i as int),
        decreases b.len() - i,
    {
        r.push(b[i]);
        assert(r@ =~= b@.take(i + 1));
        i += 1;
    }
    assert(b@.take(b.len() as int) =~= b@);
    r
}

/// What a lookup of a missing path answers.
pub open spec fn not_found_message() -> Seq<char> {
    "model entry not found"@
}

fn not_found() -> (e: MountError)
    ensures
        e.kind == MountErrorKind::NotFound,
        e.message@ == not_found_message(),
{
    proof {
        reveal_strlit("model entry not found");
    }
    MountError { kind: MountErrorKind::NotFound, message: "model entry not found".to_owned() }
}

impl View for ModelMount {
    type V = Map<Seq<Seq<char>>, Seq<u8>>;

    closed spec fn view(&self) -> Map<Seq<Seq<char>>, Seq<u8>> {
        files_map(files_view(self.files@))
    }
}

impl ModelMount {
    /// The mount's invariant: no two files share a path.
    #[verifier::type_invariant]
    spec fn wf(&self) -> bool {
        unique_paths(files_view(self.files@))
    }

    /// The label the mount was made with.
    pub closed spec fn label_view(&self) -> Seq<char> {
        self.label@
    }

    /// An empty mount.
    pub fn new(label: &str) -> (m: ModelMount)
        ensures
            m@ == Map::<Seq<Seq<char>>, Seq<u8>>::empty(),
            m.label_view() == label@,
    {
        ModelMount { files: Vec::new(), label: label.to_owned() }
    }

    /// The label the mount was made with.
    pub fn label(&self) -> (r: &str)
        ensures
            r@ == self.label_view(),
    {
        self.label.as_str()
    }

    /// Where the file at `path` is stored.
    fn position(&self, path: &[String]) -> (r: Option<usize>)
        ensures
            match r {
                Some(i) => i < self.files@.len() && path_of(self.files@[i as int]) == names_view(path@),
                None => !self@.dom().contains(names_view(path@)),
            },
    {
        proof {
            use_type_invariant(&*self);
        }
        proof {
            lemma_files_map(files_view(self.files@));
        }
        let mut i: usize = 0;
        while i < self.files.len()
            invariant
                i <= self.files.len(),
                forall|k: int| 0 <= k < i ==> path_of(#[trigger] self.files@[k]) != names_view(path@),
            decreases self.files.len() - i,
        {
            if same_path(self.files[i].0.as_slice(), path) {
                return Some(i);
            }
            i += 1;
        }
        None
    }

    /// The contents of the file at `path`.
    pub fn read(&self, path: &[String]) -> (r: Result<Vec<u8>, MountError>)
        ensures
            match r {
                Ok(bytes) => self@.dom().contains(names_view(path@)) && self@[names_view(path@)] == bytes@,
                Err(e) => !self@.dom().contains(names_view(path@)) && e.kind == MountErrorKind::NotFound
                    && e.message@ == not_found_message(),
            },
    {
        proof {
            use_type_invariant(&*self);
        }
        proof {
            lemma_files_map(files_view(self.files@));
        }
        match self.position(path) {
            Some(i) => {
                assert(files_view(self.files@)[i as int] == (path_of(self.files@[i as int]), self.files@[i as int].1@));
                Ok(copy_bytes(self.files[i].1.as_slice()))
            },
            None => Err(not_found()),
        }
    }

    /// The directory entry of the file at `path`, if there is one: its last
    /// path component and its length.
    pub fn metadata(&self, path: &[String]) -> (r: Option<MountEntry>)
        ensures
            match r {
                Some(entry) => self@.dom().contains(names_view(path@)) && entry.len == self@[names_view(path@)].len()
                    && entry.name@ == (if path@.len() > 0 { path@.last()@ } else { Seq::<char>::empty() }),
                None => !self@.dom().contains(names_view(path@)),
            },
    {
        proof {
            use_type_invariant(&*self);
        }
        proof {
            lemma_files_map(files_view(self.files@));
        }
        match self.position(path) {
            Some(i) => {
                assert(files_view(self.files@)[i as int] == (path_of(self.files@[i as int]), self.files@[i as int].1@));
                let name = if path.len() > 0 { path[path.len() - 1].clone() } else { String::new() };
                Some(MountEntry { name, len: self.files[i].1.len() as u64 })
            },
            None => None,
        }
    }

    /// The files directly inside directory `dir`, in name order.
    pub fn list(&self, dir: &[String]) -> (r: Vec<MountEntry>)
        ensures
            forall|i: int, j: int| 0 <= i < j < r@.len() ==> lex_lt(r@[i].name@, r@[j].name@),
            forall|i: int| 0 <= i < r@.len() ==> {
                let p = names_view(dir@).push((#[trigger] r@[i]).name@);
                self@.dom().contains(p) && r@[i].len == self@[p].len()
            },
            forall|p: Seq<Seq<char>>| #[trigger] self@.dom().contains(p) && is_child(p, names_view(dir@)) ==> exists|i: int|
                0 <= i < r@.len() && r@[i].name@ == p.last(),
    {
        proof {
            use_type_invariant(&*self);
        }
        let ghost v = files_view(self.files@);
        let ghost dv = names_view(dir@);
        proof {
            lemma_files_map(v);
        }
        let mut out: Vec<MountEntry> = Vec::new();
        let mut i: usize = 0;
        while i < self.files.len()
            invariant
                i <= self.files.len(),
                v == files_view(self.files@),
                dv == names_view(dir@),
                unique_paths(v),
                forall|p: Seq<Seq<char>>| files_map(v).dom().contains(p) <==> exists|k: int| 0 <= k < v.len() && (#[trigger] v[k]).0 == p,
                forall|k: int| 0 <= k < v.len() ==> files_map(v)[(#[trigger] v[k]).0] == v[k].1,
                forall|a: int, b: int| 0 <= a < b < out@.len() ==> lex_lt(out@[a].name@, out@[b].name@),
                forall|a: int| 0 <= a < out@.len() ==> {
                    let p = dv.push((#[trigger] out@[a]).name@);
                    files_map(v).dom().contains(p) && out@[a].len == files_map(v)[p].len()
                },
                forall|k: int| 0 <= k < i && is_child((#[trigger] v[k]).0, dv) ==> exists|a: int| 0 <= a < out@.len() && out@[a].name@ == v[k].0.last(),
                forall|a: int| 0 <= a < out@.len() ==> exists|k: int| 0 <= k < i && (#[trigger] v[k]).0 == dv.push((#[trigger] out@[a]).name@),
            decreases self.files.len() - i,
        {
            let path = &self.files[i].0;
            assert(v[i as int] == (path_of(self.files@[i as int]), self.files@[i as int].1@));
            if path.len() > dir.len() && path.len() - 1 == dir.len() && starts_with_path(path.as_slice(), dir) {
                let name = path[path.len() - 1].clone();
                let len = self.files[i].1.len() as u64;
                let ghost nv = name@;
                let ghost pv = v[i as int].0;
                assert(pv.last() == nv);
                assert(pv =~= dv.push(nv)) by {
                    assert(pv.take(dv.len() as int) == dv);
                }
                // names of listed children are distinct from this one
                let mut q: usize = 0;
                while q < out.len() && lex_less(chars_of(out[q].name.as_str()).as_slice(), chars_of(name.as_str()).as_slice())
                    invariant
                        q <= out.len(),
                        name@ == nv,
                        forall|a: int| 0 <= a < q ==> lex_lt(out@[a].name@, nv),
                    decreases out.len() - q,
                {
                    q += 1;
                }
                let ghost before = out@;
                proof {
                    assert forall|a: int| 0 <= a < before.len() implies before[a].name@ != nv by {
                        if before[a].name@ == nv {
                            let k = choose|k: int| 0 <= k < i && (#[trigger] v[k]).0 == dv.push(before[a].name@);
                            assert(v[k].0 == pv);
                            assert(v[k].0 != v[i as int].0);
                        }
                    }
                    if q < before.len() {
                        lemma_lex_order(before[q as int].name@, nv);
                    }
                }
                out.insert(q, MountEntry { name, len });
                proof {
                    let after = out@;
                    assert(after =~= before.insert(q as int, after[q as int]));
                    assert forall|a: int, b: int| 0 <= a < b < after.len() implies lex_lt(after[a].name@, after[b].name@) by {
                        if b == q {
                            assert(after[a] == before[a]);
                        } else if a == q {
                            assert(after[b] == before[b - 1]);
                            if b - 1 > q {
                                lemma_lex_trans(nv, before[q as int].name@, before[b - 1].name@);
                            }
                        } else if a < q && b > q {
                            assert(after[a] == before[a] && after[b] == before[b - 1]);
                        } else if a > q {
                            assert(after[a] == before[a - 1] && after[b] == before[b - 1]);
                        } else {
                            assert(after[a] == before[a] && after[b] == before[b]);
                        }
                    }
                    assert forall|a: int| 0 <= a < after.len() implies {
                        let p = dv.push((#[trigger] after[a]).name@);
                        files_map(v).dom().contains(p) && after[a].len == files_map(v)[p].len()
                    } by {
                        if a < q {
                            assert(after[a] == before[a]);
                        } else if a > q {
                            assert(after[a] == before[a - 1]);
                        } else {
                            assert(dv.push(after[a].name@) == pv);
                        }
                    }
                    assert forall|a: int| 0 <= a < after.len() implies exists|k: int| 0 <= k < i + 1 && (#[trigger] v[k]).0 == dv.push((#[trigger] after[a]).name@) by {
                        if a < q {
                            assert(after[a] == before[a]);
                        } else if a > q {
                            assert(after[a] == before[a - 1]);
                        } else {
                            assert(v[i as int].0 == dv.push(after[a].name@));
                        }
                    }
                    assert forall|k: int| 0 <= k < i + 1 && is_child((#[trigger] v[k]).0, dv) implies exists|a: int| 0 <= a < after.len() && after[a].name@ == v[k].0.last() by {
                        if k == i {
                            assert(after[q as int].name@ == v[k].0.last());
                        } else {
                            let a = choose|a: int| 0 <= a < before.len() && before[a].name@ == v[k].0.last();
                            if a < q {
                                assert(after[a] == before[a]);
                            } else {
                                assert(after[a + 1] == before[a]);
                            }
                        }
                    }
                }
            } else {
                proof {
                    assert(!is_child(v[i as int].0, dv));
                }
            }
            i += 1;
        }
        proof {
            assert forall|p: Seq<Seq<char>>| #[trigger] files_map(v).dom().contains(p) && is_child(p, dv) implies exists|a: int|
                0 <= a < out@.len() && out@[a].name@ == p.last() by {
                let k = choose|k: int| 0 <= k < v.len() && (#[trigger] v[k]).0 == p;
            }
        }
        out
    }

    /// Store `bytes` at `path`, replacing any file there, unless the caller
    /// cancelled.
    pub fn replace(&mut self, path: &[String], bytes: &[u8], cancelled: bool) -> (r: Result<(), MountError>)
        ensures
            final(self).label_view() == old(self).label_view(),
            cancelled ==> (r matches Err(e) && e.kind == MountErrorKind::Cancelled && final(self)@ == old(self)@),
            !cancelled ==> r is Ok && final(self)@ == old(self)@.insert(names_view(path@), bytes@),
    {
        proof {
            use_type_invariant(&*self);
        }
        if cancelled {
            return Err(MountError { kind: MountErrorKind::Cancelled, message: "cancelled".to_owned() });
        }
        proof {
            lemma_files_map(files_view(self.files@));
        }
        let ghost before = self.files@;
        let p = copy_path(path);
        let b = copy_bytes(bytes);
        let ghost x = (names_view(p@), b@);
        let at = self.position(path);
        let mut files: Vec<(Vec<String>, Vec<u8>)> = Vec::new();
        std::mem::swap(&mut files, &mut self.files);
        match at {
            Some(i) => {
                files.set(i, (p, b));
                proof {
                    assert(files_view(files@) =~= files_view(before).update(i as int, x));
                    lemma_update(files_view(before), i as int, x);
                }
            },
            None => {
                files.push((p, b));
                proof {
                    assert(files_view(files@) =~= files_view(before).push(x));
                    lemma_push(files_view(before), x);
                }
            },
        }
        self.files = files;
        Ok(())
    }

    /// Remove the file at `path`.
    pub fn remove_file(&mut self, path: &[String]) -> (r: Result<(), MountError>)
        ensures
            final(self).label_view() == old(self).label_view(),
            old(self)@.dom().contains(names_view(path@)) ==> r is Ok && final(self)@ == old(self)@.remove(names_view(path@)),
            !old(self)@.dom().contains(names_view(path@)) ==> (r matches Err(e) && e.kind == MountErrorKind::NotFound
                && e.message@ == not_found_message() && final(self)@ == old(self)@),
    {
        proof {
            use_type_invariant(&*self);
        }
        proof {
            lemma_files_map(files_view(self.files@));
        }
        let ghost before = self.files@;
        match self.position(path) {
            Some(i) => {
                let mut files: Vec<(Vec<String>, Vec<u8>)> = Vec::new();
                std::mem::swap(&mut files, &mut self.files);
                let _ = files.remove(i);
                proof {
                    assert(files_view(files@) =~= files_view(before).remove(i as int));
                    lemma_remove(files_view(before), i as int);
                }
                self.files = files;
                Ok(())
            },
            None => Err(not_found()),
        }
    }

    /// Remove every file under directory `dir`.
    pub fn remove_dir_all(&mut self, dir: &[String])
        ensures
            final(self).label_view() == old(self).label_view(),
            final(self)@ == old(self)@.restrict(old(self)@.dom().filter(|p: Seq<Seq<char>>| !path_starts_with(p, names_view(dir@)))),
    {
        proof {
            use_type_invariant(&*self);
        }
        let ghost before = files_view(self.files@);
        let ghost d = names_view(dir@);
        let mut kept: Vec<(Vec<String>, Vec<u8>)> = Vec::new();
        let mut i: usize = 0;
        proof {
            reveal(Seq::filter);
        }
        assert(before.take(0).filter(outside_dir(d)) =~= Seq::<(Seq<Seq<char>>, Seq<u8>)>::empty());
        assert(files_view(kept@) =~= Seq::<(Seq<Seq<char>>, Seq<u8>)>::empty());
        while i < self.files.len()
            invariant
                i <= self.files.len(),
                files_view(self.files@) == before,
                d == names_view(dir@),
                files_view(kept@) == before.take(i as int).filter(outside_dir(d)),
            decreases self.files.len() - i,
        {
            assert(before.take(i + 1).drop_last() =~= before.take(i as int));
            assert(before.take(i + 1).last() == before[i as int]);
            proof {
                reveal(Seq::filter);
            }
            assert(before[i as int] == (path_of(self.files@[i as int]), self.files@[i as int].1@));
            if !starts_with_path(self.files[i].0.as_slice(), dir) {
                let p = copy_path(self.files[i].0.as_slice());
                let b = copy_bytes(self.files[i].1.as_slice());
                let ghost old_kept = kept@;
                kept.push((p, b));
                assert(files_view(kept@) =~= files_view(old_kept).push(before[i as int]));
            }
            proof {
                reveal(Seq::filter);
                let t1 = before.take(i + 1);
                assert(t1.len() > 0);
                assert(t1.filter(outside_dir(d)) == (if outside_dir(d)(t1.last()) { t1.drop_last().filter(outside_dir(d)).push(t1.last()) } else { t1.drop_last().filter(outside_dir(d)) }));
            }
            i += 1;
        }
        assert(before.take(before.len() as int) =~= before);
        proof {
            lemma_filter(before, d);
        }
        self.files = kept;
    }
}

proof fn lemma_update(v: Seq<(Seq<Seq<char>>, Seq<u8>)>, i: int, x: (Seq<Seq<char>>, Seq<u8>))
    requires
        unique_paths(v),
        0 <= i < v.len(),
        x.0 == v[i].0,
    ensures
        unique_paths(v.update(i, x)),
        files_map(v.update(i, x)) == files_map(v).insert(x.0, x.1),
{
    let u = v.update(i, x);
    assert forall|a: int, b: int| 0 <= a < u.len() && 0 <= b < u.len() && a != b implies u[a].0 != u[b].0 by {
        assert(u[a].0 == v[a].0 && u[b].0 == v[b].0);
    }
    lemma_files_map(v);
    lemma_files_map(u);
    assert forall|q: Seq<Seq<char>>| #[trigger] files_map(u).dom().contains(q) == files_map(v).insert(x.0, x.1).dom().contains(q) by {
        if files_map(u).dom().contains(q) {
            let k = choose|k: int| 0 <= k < u.len() && (#[trigger] u[k]).0 == q;
            assert(v[k].0 == q);
        }
        if files_map(v).dom().contains(q) {
            let k = choose|k: int| 0 <= k < v.len() && (#[trigger] v[k]).0 == q;
            assert(u[k].0 == q);
        }
        if q == x.0 {
            assert(u[i].0 == q);
        }
    }
    assert forall|q: Seq<Seq<char>>| files_map(u).dom().contains(q) implies #[trigger] files_map(u)[q] == files_map(v).insert(x.0, x.1)[q] by {
        let k = choose|k: int| 0 <= k < u.len() && (#[trigger] u[k]).0 == q;
        if k != i {
            assert(u[k] == v[k]);
            assert(v[k].0 != v[i].0);
        }
    }
    assert(files_map(u) =~= files_map(v).insert(x.0, x.1));
}

proof fn lemma_push(v: Seq<(Seq<Seq<char>>, Seq<u8>)>, x: (Seq<Seq<char>>, Seq<u8>))
    requires
        unique_paths(v),
        !files_map(v).dom().contains(x.0),
    ensures
        unique_paths(v.push(x)),
        files_map(v.push(x)) == files_map(v).insert(x.0, x.1),
{
    lemma_files_map(v);
    let u = v.push(x);
    assert(u.drop_last() =~= v);
    assert forall|a: int, b: int| 0 <= a < u.len() && 0 <= b < u.len() && a != b implies u[a].0 != u[b].0 by {
        if a < v.len() && b < v.len() {
            assert(u[a] == v[a] && u[b] == v[b]);
        } else if a < v.len() {
            assert(u[a] == v[a]);
        } else {
            assert(u[b] == v[b]);
        }
    }
}

proof fn lemma_remove(v: Seq<(Seq<Seq<char>>, Seq<u8>)>, i: int)
    requires
        unique_paths(v),
        0 <= i < v.len(),
    ensures
        unique_paths(v.remove(i)),
        files_map(v.remove(i)) == files_map(v).remove(v[i].0),
{
    let u = v.remove(i);
    assert forall|a: int, b: int| 0 <= a < u.len() && 0 <= b < u.len() && a != b implies u[a].0 != u[b].0 by {
        let a0 = if a < i { a } else { a + 1 };
        let b0 = if b < i { b } else { b + 1 };
        assert(u[a] == v[a0] && u[b] == v[b0]);
    }
    lemma_files_map(v);
    lemma_files_map(u);
    assert forall|q: Seq<Seq<char>>| #[trigger] files_map(u).dom().contains(q) == files_map(v).remove(v[i].0).dom().contains(q) by {
        if files_map(u).dom().contains(q) {
            let k = choose|k: int| 0 <= k < u.len() && (#[trigger] u[k]).0 == q;
            let k0 = if k < i { k } else { k + 1 };
            assert(u[k] == v[k0]);
        }
        if files_map(v).dom().contains(q) && q != v[i].0 {
            let k = choose|k: int| 0 <= k < v.len() && (#[trigger] v[k]).0 == q;
            let k1 = if k < i { k } else { k - 1 };
            assert(u[k1] == v[k]);
        }
    }
    assert forall|q: Seq<Seq<char>>| files_map(u).dom().contains(q) implies #[trigger] files_map(u)[q] == files_map(v).remove(v[i].0)[q] by {
        let k = choose|k: int| 0 <= k < u.len() && (#[trigger] u[k]).0 == q;
        let k0 = if k < i { k } else { k + 1 };
        assert(u[k] == v[k0]);
    }
    assert(files_map(u) =~= files_map(v).remove(v[i].0));
}

proof fn lemma_filter(v: Seq<(Seq<Seq<char>>, Seq<u8>)>, d: Seq<Seq<char>>)
    requires
        unique_paths(v),
    ensures
        unique_paths(v.filter(outside_dir(d))),
        files_map(v.filter(outside_dir(d))) == files_map(v).restrict(files_map(v).dom().filter(|p: Seq<Seq<char>>| !path_starts_with(p, d))),
    decreases v.len(),
{
    let g = outside_dir(d);
    reveal(Seq::filter);
    if v.len() == 0 {
        assert(files_map(v) =~= Map::<Seq<Seq<char>>, Seq<u8>>::empty());
        assert(files_map(v).restrict(files_map(v).dom().filter(|p: Seq<Seq<char>>| !path_starts_with(p, d))) =~= Map::<Seq<Seq<char>>, Seq<u8>>::empty());
    } else {
        let t = v.drop_last();
        let x = v.last();
        assert(unique_paths(t)) by {
            assert forall|i: int, j: int| 0 <= i < t.len() && 0 <= j < t.len() && i != j implies t[i].0 != t[j].0 by {
                assert(t[i] == v[i] && t[j] == v[j]);
            }
        }
        lemma_filter(t, d);
        lemma_files_map(t);
        let ft = t.filter(g);
        assert(!files_map(t).dom().contains(x.0)) by {
            if files_map(t).dom().contains(x.0) {
                let k = choose|k: int| 0 <= k < t.len() && (#[trigger] t[k]).0 == x.0;
                assert(v[k] == t[k]);
                assert(v[k].0 != v[v.len() - 1].0);
            }
        }
        if g(x) {
            lemma_files_map(ft);
            assert(!files_map(ft).dom().contains(x.0));
            lemma_push(ft, x);
        }
        assert(files_map(v.filter(g)) =~= files_map(v).restrict(files_map(v).dom().filter(|p: Seq<Seq<char>>| !path_starts_with(p, d))));
    }
}

/// A path under a directory prefix: the prefix's components, then the path's.
pub fn prefixed_path(prefix: &[String], p: &[String]) -> (r: Vec<String>)
    ensures
        names_view(r@) == names_view(prefix@) + names_view(p@),
{
    let mut r = copy_path(prefix);
    let mut i: usize = 0;
    let ghost start = names_view(r@);
    while i < p.len()
        invariant
            i <= p.len(),
            start == names_view(prefix@),
            names_view(r@) == start + names_view(p@.take(i as int)),
        decreases p.len() - i,
    {
        let c = p[i].clone();
        assert(c@ == p@[i as int]@);
        let ghost before = r@;
        r.push(c);
        assert(names_view(r@) =~= names_view(before).push(c@));
        assert(names_view(p@.take(i + 1)) =~= names_view(p@.take(i as int)).push(p@[i as int]@));
        assert(names_view(r@) =~= start + names_view(p@.take(i + 1)));
        i += 1;
    }
    assert(p@.take(p.len() as int) =~= p@);
    r
}

/// What a mount keeps: reading a path gives back the bytes last stored there,
/// storing at one path leaves every other path as it was, and a removed file
/// is gone while the others stay.
pub proof fn lemma_mount_store_and_read(m: Map<Seq<Seq<char>>, Seq<u8>>, p: Seq<Seq<char>>, bytes: Seq<u8>, q: Seq<Seq<char>>)
    ensures
        m.insert(p, bytes).dom().contains(p) && m.insert(p, bytes)[p] == bytes,
        q != p ==> m.insert(p, bytes).dom().contains(q) == m.dom().contains(q),
        q != p && m.dom().contains(q) ==> m.insert(p, bytes)[q] == m[q],
        !m.remove(p).dom().contains(p),
        q != p ==> m.remove(p).dom().contains(q) == m.dom().contains(q),
{
}

} // verus!
