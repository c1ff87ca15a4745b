//! # path
//!
//! Filesystem paths as sequences of components, with the operations that the listing
//! needs: joining, prefix tests, prefix removal, display, and the hidden-name test.
//!
//! A path is an optional root followed by parts. A part is a name, `.` (only as the
//! first part of a relative path) or `..`. This is the component view of a path that
//! the standard library gives, and every operation here is stated on it.
use vstd::prelude::*;

use crate::text::push_str;

verus! {

/// A path: whether it starts at the root, and its parts after the root.
#[derive(Debug)]
pub struct FsPath {
    pub absolute: bool,
    pub parts: Vec<String>,
}

/// The mathematical value of a path.
pub struct PathModel {
    pub absolute: bool,
    pub parts: Seq<Seq<char>>,
}

impl View for FsPath {
    type V = PathModel;

    open spec fn view(&self) -> PathModel {
        PathModel { absolute: self.absolute, parts: self.parts@.map_values(|p: String| p@) }
    }
}

/// The part `.`.
pub open spec fn is_cur_part(p: Seq<char>) -> bool {
    p == seq!['.']
}

/// The part `..`.
pub open spec fn is_parent_part(p: Seq<char>) -> bool {
    p == seq!['.', '.']
}

/// A part that names a file (neither `.` nor `..`).
pub open spec fn is_name_part(p: Seq<char>) -> bool {
    !is_cur_part(p) && !is_parent_part(p)
}

/// A name that starts with a dot.
pub open spec fn is_hidden_part(p: Seq<char>) -> bool {
    p.len() > 0 && p[0] == '.' && is_name_part(p)
}

/// The parts of a path are non-empty, hold no separator, and `.` occurs only first in a
/// relative path.
pub open spec fn path_wf(p: PathModel) -> bool {
    forall|i: int|
        0 <= i < p.parts.len() ==> {
            &&& (#[trigger] p.parts[i]).len() > 0
            &&& !p.parts[i].contains('/')
            &&& is_cur_part(p.parts[i]) ==> (i == 0 && !p.absolute)
        }
}

/// `parts` without a leading `.`.
pub open spec fn drop_cur(parts: Seq<Seq<char>>) -> Seq<Seq<char>> {
    if parts.len() > 0 && is_cur_part(parts[0]) {
        parts.drop_first()
    } else {
        parts
    }
}

/// `base` joined with `rel`: an absolute `rel` replaces `base`; an empty `base` gives
/// `rel`; otherwise the parts follow one another (a leading `.` of `rel` vanishes).
pub open spec fn join_model(base: PathModel, rel: PathModel) -> PathModel {
    if rel.absolute {
        rel
    } else if !base.absolute && base.parts.len() == 0 {
        rel
    } else {
        PathModel { absolute: base.absolute, parts: base.parts + drop_cur(rel.parts) }
    }
}

/// Whether `s` is a prefix of `t`.
pub open spec fn is_prefix_of(s: Seq<Seq<char>>, t: Seq<Seq<char>>) -> bool {
    s.len() <= t.len() && t.take(s.len() as int) == s
}

/// Whether the components of `base` begin the components of `p`.
pub open spec fn starts_with_model(p: PathModel, base: PathModel) -> bool {
    if base.absolute {
        p.absolute && is_prefix_of(base.parts, p.parts)
    } else if base.parts.len() == 0 {
        true
    } else {
        !p.absolute && is_prefix_of(base.parts, p.parts)
    }
}

/// The components of `p` after those of `base` (when `p` starts with `base`).
pub open spec fn strip_model(p: PathModel, base: PathModel) -> PathModel {
    if base.absolute || base.parts.len() > 0 {
        PathModel { absolute: false, parts: p.parts.skip(base.parts.len() as int) }
    } else {
        p
    }
}

/// Whether a path has no components.
pub open spec fn is_empty_model(p: PathModel) -> bool {
    !p.absolute && p.parts.len() == 0
}

/// The number of components of a path (the root counts as one).
pub open spec fn component_count(p: PathModel) -> nat {
    if p.absolute {
        p.parts.len() + 1
    } else {
        p.parts.len()
    }
}

/// Parts separated by `/`.
pub open spec fn joined(parts: Seq<Seq<char>>) -> Seq<char>
    decreases parts.len(),
{
    if parts.len() == 0 {
        Seq::empty()
    } else if parts.len() == 1 {
        parts[0]
    } else {
        joined(parts.drop_last()) + seq!['/'] + parts.last()
    }
}

/// How a path is shown: `/` for the root, then the parts separated by `/`.
pub open spec fn display_of(p: PathModel) -> Seq<char> {
    if p.absolute {
        seq!['/'] + joined(p.parts)
    } else {
        joined(p.parts)
    }
}

/// Whether some part of the path is a name that starts with a dot.
pub open spec fn path_hidden(p: PathModel) -> bool {
    exists|i: int| 0 <= i < p.parts.len() && is_hidden_part(#[trigger] p.parts[i])
}

/// The path of a single part: itself when it is a name, and the empty path for `.`
/// and `..`.
pub open spec fn component_path_model(part: Seq<char>) -> PathModel {
    if is_name_part(part) {
        PathModel { absolute: false, parts: seq![part] }
    } else {
        PathModel { absolute: false, parts: Seq::empty() }
    }
}

/// Whether two strings have equal characters.
pub fn same_text(a: &String, b: &String) -> (r: bool)
    ensures
        r == (a@ == b@),
{
    *a == *b
}

fn text_is(a: &String, t: &str) -> (r: bool)
    ensures
        r == (a@ == t@),
{
    let n = a.as_str().unicode_len();
    if n != t.unicode_len() {
        return false;
    }
    let mut i: usize = 0;
    while i < n
        invariant
            n == a@.len(),
            n == t@.len(),
            i <= n,
            forall|j: int| 0 <= j < i ==> a@[j] == t@[j],
        decreases n - i,
    {
        if a.as_str().get_char(i) != t.get_char(i) {
            return false;
        }
        i = i + 1;
    }
    proof {
        assert(a@ =~= t@);
    }
    true
}

/// Whether a part is `.`.
pub fn part_is_cur(p: &String) -> (r: bool)
    ensures
        r == is_cur_part(p@),
{
    proof {
        reveal_strlit(".");
        assert("."@ =~= seq!['.']);
    }
    text_is(p, ".")
}

/// Whether a part is `..`.
pub fn part_is_parent(p: &String) -> (r: bool)
    ensures
        r == is_parent_part(p@),
{
    proof {
        reveal_strlit("..");
        assert(".."@ =~= seq!['.', '.']);
    }
    text_is(p, "..")
}

/// Whether a part is a name that starts with a dot.
pub fn part_is_hidden(p: &String) -> (r: bool)
    ensures
        r == is_hidden_part(p@),
{
    let n = p.as_str().unicode_len();
    if n == 0 {
        return false;
    }
    if p.as_str().get_char(0) != '.' {
        return false;
    }
    !part_is_cur(p) && !part_is_parent(p)
}

/// A copy of a list of strings.
pub fn copy_texts(v: &Vec<String>) -> (r: Vec<String>)
    ensures
        r@ == v@,
{
    let mut r: Vec<String> = Vec::new();
    let mut i: usize = 0;
    while i < v.len()
        invariant
            i <= v.len(),
            r@ == v@.take(i as int),
        decreases v.len() - i,
    {
        r.push(v[i].clone());
        i = i + 1;
        proof {
            assert(v@.take(i as int) =~= v@.take(i - 1).push(v@[i - 1]));
        }
    }
    proof {
        assert(v@.take(v.len() as int) =~= v@);
    }
    r
}

impl FsPath {
    /// The empty path.
    pub fn empty() -> (r: FsPath)
        ensures
            r@.parts.len() == 0,
            !r@.absolute,
    {
        FsPath { absolute: false, parts: Vec::new() }
    }

    /// A copy of this path.
    pub fn duplicate(&self) -> (r: FsPath)
        ensures
            r@ == self@,
    {
        FsPath { absolute: self.absolute, parts: copy_texts(&self.parts) }
    }

    /// Whether two paths have the same components.
    pub fn same_as(&self, other: &FsPath) -> (r: bool)
        ensures
            r == (self@ == other@),
    {
        if self.absolute != other.absolute || self.parts.len() != other.parts.len() {
            proof {
                if self@ == other@ {
                    assert(self@.parts.len() == self.parts@.len());
                }
            }
            return false;
        }
        let mut i: usize = 0;
        while i < self.parts.len()
            invariant
                i <= self.parts.len(),
                self.parts.len() == other.parts.len(),
                forall|j: int| 0 <= j < i ==> self.parts@[j]@ == other.parts@[j]@,
            decreases self.parts.len() - i,
        {
            if !same_text(&self.parts[i], &other.parts[i]) {
                proof {
                    assert(self@.parts[i as int] != other@.parts[i as int]);
                }
                return false;
            }
            i = i + 1;
        }
        proof {
            assert(self@.parts =~= other@.parts);
        }
        true
    }

    /// Whether the path has no components.
    pub fn is_empty(&self) -> (r: bool)
        ensures
            r == is_empty_model(self@),
    {
        !self.absolute && self.parts.len() == 0
    }

    /// The number of components (the root counts as one).
    pub fn count_components(&self) -> (r: usize)
        requires
            self.parts.len() < usize::MAX,
        ensures
            r as nat == component_count(self@),
    {
        if self.absolute {
            self.parts.len() + 1
        } else {
            self.parts.len()
        }
    }

    /// This path joined with `rel`.
    pub fn join(&self, rel: &FsPath) -> (r: FsPath)
        ensures
            r@ == join_model(self@, rel@),
    {
        if rel.absolute {
            return rel.duplicate();
        }
        if !self.absolute && self.parts.len() == 0 {
            return rel.duplicate();
        }
        let mut parts = copy_texts(&self.parts);
        let start: usize = if rel.parts.len() > 0 && part_is_cur(&rel.parts[0]) { 1 } else { 0 };
        let ghost tail = drop_cur(rel@.parts);
        proof {
            assert(tail =~= rel@.parts.skip(start as int));
        }
        let mut i = start;
        while i < rel.parts.len()
            invariant
                start <= i <= rel.parts.len(),
                tail =~= rel@.parts.skip(start as int),
                parts@.map_values(|p: String| p@) =~= self@.parts + rel@.parts.subrange(
                    start as int,
                    i as int,
                ),
            decreases rel.parts.len() - i,
        {
            let ghost before = parts@;
            parts.push(rel.parts[i].clone());
            i = i + 1;
            proof {
                assert(parts@ == before.push(rel.parts@[i - 1]));
                assert(parts@.map_values(|p: String| p@) =~= before.map_values(|p: String| p@).push(
                    rel.parts@[i - 1]@,
                ));
                assert(rel@.parts.subrange(start as int, i as int) =~= rel@.parts.subrange(
                    start as int,
                    i - 1,
                ).push(rel@.parts[i - 1]));
            }
        }
        let r = FsPath { absolute: self.absolute, parts };
        proof {
            assert(rel@.parts.subrange(start as int, rel.parts.len() as int) =~= tail);
            assert(r@.parts =~= self@.parts + tail);
        }
        r
    }

    /// Whether the components of `base` begin the components of this path.
    pub fn starts_with(&self, base: &FsPath) -> (r: bool)
        ensures
            r == starts_with_model(self@, base@),
    {
        if !base.absolute && base.parts.len() == 0 {
            return true;
        }
        if base.absolute != self.absolute {
            return false;
        }
        if base.parts.len() > self.parts.len() {
            return false;
        }
        let mut i: usize = 0;
        while i < base.parts.len()
            invariant
                i <= base.parts.len() <= self.parts.len(),
                forall|j: int| 0 <= j < i ==> base.parts@[j]@ == self.parts@[j]@,
            decreases base.parts.len() - i,
        {
            if !same_text(&base.parts[i], &self.parts[i]) {
                proof {
                    assert(self@.parts.take(base@.parts.len() as int)[i as int] != base@.parts[i as int]);
                }
                return false;
            }
            i = i + 1;
        }
        proof {
            assert(self@.parts.take(base@.parts.len() as int) =~= base@.parts);
        }
        true
    }

    /// The components after those of `base`, when this path starts with `base`.
    pub fn strip_prefix(&self, base: &FsPath) -> (r: Option<FsPath>)
        ensures
            match r {
                Some(rest) => starts_with_model(self@, base@) && rest@ == strip_model(self@, base@),
                None => !starts_with_model(self@, base@),
            },
    {
        if !self.starts_with(base) {
            return None;
        }
        if !base.absolute && base.parts.len() == 0 {
            return Some(self.duplicate());
        }
        let mut parts: Vec<String> = Vec::new();
        let k = base.parts.len();
        let mut i = k;
        while i < self.parts.len()
            invariant
                k <= i <= self.parts.len(),
                parts@.map_values(|p: String| p@) =~= self@.parts.subrange(k as int, i as int),
            decreases self.parts.len() - i,
        {
            let ghost before = parts@;
            parts.push(self.parts[i].clone());
            i = i + 1;
            proof {
                assert(parts@ == before.push(self.parts@[i - 1]));
                assert(parts@.map_values(|p: String| p@) =~= before.map_values(|p: String| p@).push(
                    self.parts@[i - 1]@,
                ));
                assert(self@.parts.subrange(k as int, i as int) =~= self@.parts.subrange(
                    k as int,
                    i - 1,
                ).push(self@.parts[i - 1]));
            }
        }
        let r = FsPath { absolute: false, parts };
        proof {
            assert(r@.parts =~= self@.parts.skip(k as int));
        }
        Some(r)
    }

    /// Whether some part is a name that starts with a dot.
    pub fn is_hidden(&self) -> (r: bool)
        ensures
            r == path_hidden(self@),
    {
        let mut i: usize = 0;
        while i < self.parts.len()
            invariant
                i <= self.parts.len(),
                forall|j: int| 0 <= j < i ==> !is_hidden_part(#[trigger] self@.parts[j]),
            decreases self.parts.len() - i,
        {
            if part_is_hidden(&self.parts[i]) {
                proof {
                    assert(is_hidden_part(self@.parts[i as int]));
                }
                return true;
            }
            i = i + 1;
        }
        false
    }

    /// How this path is shown.
    pub fn to_display_string(&self) -> (r: String)
        ensures
            r@ == display_of(self@),
    {
        let mut s = String::new();
        if self.absolute {
            crate::text::push_char(&mut s, '/');
        }
        let ghost lead: Seq<char> = if self.absolute { seq!['/'] } else { Seq::empty() };
        proof {
            assert(s@ =~= lead);
        }
        let mut i: usize = 0;
        while i < self.parts.len()
            invariant
                i <= self.parts.len(),
                lead == (if self.absolute { seq!['/'] } else { Seq::<char>::empty() }),
                s@ =~= lead + joined(self@.parts.take(i as int)),
            decreases self.parts.len() - i,
        {
            if i > 0 {
                crate::text::push_char(&mut s, '/');
            }
            push_str(&mut s, self.parts[i].as_str());
            i = i + 1;
            proof {
                let t = self@.parts.take(i as int);
                assert(t.drop_last() =~= self@.parts.take(i - 1));
                if i > 1 {
                    assert(joined(t) == joined(t.drop_last()) + seq!['/'] + t.last());
                } else {
                    assert(t.len() == 1);
                }
            }
        }
        proof {
            assert(self@.parts.take(self.parts.len() as int) =~= self@.parts);
        }
        s
    }
}

/// The path of a single part: itself when it is a name, the empty path for `.` and `..`.
pub fn component_to_path(part: &String) -> (r: FsPath)
    ensures
        r@ == component_path_model(part@),
{
    if part_is_cur(part) || part_is_parent(part) {
        let r = FsPath::empty();
        proof {
            assert(r@.parts =~= Seq::<Seq<char>>::empty());
        }
        r
    } else {
        let mut parts: Vec<String> = Vec::new();
        parts.push(part.clone());
        let r = FsPath { absolute: false, parts };
        proof {
            assert(r@.parts =~= seq![part@]);
        }
        r
    }
}

/// Joining a relative path onto a non-empty base and removing the base again gives the
/// relative path back, without a leading `.`.
pub proof fn lemma_strip_after_join(base: PathModel, rel: PathModel)
    requires
        !rel.absolute,
        base.absolute || base.parts.len() > 0,
    ensures
        starts_with_model(join_model(base, rel), base),
        strip_model(join_model(base, rel), base) == (PathModel {
            absolute: false,
            parts: drop_cur(rel.parts),
        }),
{
    let parts = base.parts + drop_cur(rel.parts);
    assert(parts.take(base.parts.len() as int) =~= base.parts);
    assert(parts.skip(base.parts.len() as int) =~= drop_cur(rel.parts));
}

/// A well-formed path that starts with a base is the base joined with what remains
/// after removing the base.
pub proof fn lemma_join_after_strip(p: PathModel, base: PathModel)
    requires
        path_wf(p),
        starts_with_model(p, base),
    ensures
        join_model(base, strip_model(p, base)) == p,
{
    if base.absolute || base.parts.len() > 0 {
        let n = base.parts.len() as int;
        let rest = p.parts.skip(n);
        if rest.len() > 0 {
            assert(rest[0] == p.parts[n]);
            assert(!is_cur_part(p.parts[n]));
        }
        assert(drop_cur(rest) == rest);
        assert(base.parts + rest =~= p.parts);
    }
}

} // verus!
