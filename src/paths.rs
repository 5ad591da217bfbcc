//! Paths as sequences of components, and the path steps of the rewriter.
//!
//! A path is read the way `std::path::Path` reads it on Unix: `/` separates
//! components, a leading `/` makes it absolute, and empty and `.` components
//! are dropped.

use vstd::prelude::*;

use crate::text::{chars_of, extend_chars, same_text, string_of};

verus! {

/// The mathematical content of a path.
pub struct PathModel {
    pub absolute: bool,
    pub parts: Seq<Seq<char>>,
}

/// The components that a segment between separators contributes.
pub open spec fn kept(seg: Seq<char>) -> Seq<Seq<char>> {
    if seg.len() == 0 || seg == seq!['.'] {
        Seq::empty()
    } else {
        seq![seg]
    }
}

/// The components of `s`, where `cur` is the segment read so far.
pub open spec fn split_from(s: Seq<char>, cur: Seq<char>) -> Seq<Seq<char>>
    decreases s.len(),
{
    if s.len() == 0 {
        kept(cur)
    } else if s[0] == '/' {
        kept(cur) + split_from(s.drop_first(), Seq::empty())
    } else {
        split_from(s.drop_first(), cur.push(s[0]))
    }
}

/// The path that a string names.
pub open spec fn path_of(s: Seq<char>) -> PathModel {
    PathModel { absolute: s.len() > 0 && s[0] == '/', parts: split_from(s, Seq::empty()) }
}

/// Components joined by `/`.
pub open spec fn joined(parts: Seq<Seq<char>>) -> Seq<char>
    decreases parts.len(),
{
    if parts.len() == 0 {
        Seq::empty()
    } else if parts.len() == 1 {
        parts[0]
    } else {
        joined(parts.drop_last()) + seq!['/'] + parts.last()
    }
}

/// The text of a path.
pub open spec fn text_of(p: PathModel) -> Seq<char> {
    if p.absolute {
        seq!['/'] + joined(p.parts)
    } else {
        joined(p.parts)
    }
}

/// `std::path::Path::starts_with`: `base`'s components lead `p`'s.
pub open spec fn starts_with(p: PathModel, base: PathModel) -> bool {
    if p.absolute == base.absolute {
        base.parts.len() <= p.parts.len() && p.parts.take(base.parts.len() as int) == base.parts
    } else {
        !base.absolute && base.parts.len() == 0
    }
}

/// `std::path::Path::strip_prefix`, where `p` starts with `base`.
pub open spec fn strip_prefix(p: PathModel, base: PathModel) -> PathModel {
    PathModel { absolute: p.absolute && !base.absolute, parts: p.parts.skip(base.parts.len() as int) }
}

/// `std::path::Path::ends_with`: `child`'s components end `p`'s.
pub open spec fn ends_with(p: PathModel, child: PathModel) -> bool {
    if child.absolute {
        p.absolute && p.parts == child.parts
    } else {
        child.parts.len() <= p.parts.len() && p.parts.skip(p.parts.len() - child.parts.len())
            == child.parts
    }
}

/// `std::path::Path::join`: `q` where it is absolute, else `q` under `base`.
pub open spec fn join(base: PathModel, q: PathModel) -> PathModel {
    if q.absolute {
        q
    } else {
        PathModel { absolute: base.absolute, parts: base.parts + q.parts }
    }
}

/// A path, held as its components.
#[derive(Debug)]
pub struct SourcePath {
    absolute: bool,
    parts: Vec<String>,
}

pub open spec fn views(v: Seq<String>) -> Seq<Seq<char>> {
    v.map_values(|s: String| s@)
}

impl View for SourcePath {
    type V = PathModel;

    closed spec fn view(&self) -> PathModel {
        PathModel { absolute: self.absolute, parts: views(self.parts@) }
    }
}

impl Clone for SourcePath {
    fn clone(&self) -> (r: Self)
        ensures
            r@ == self@,
    {
        let mut parts: Vec<String> = Vec::new();
        let mut i: usize = 0;
        while i < self.parts.len()
            invariant
                i <= self.parts@.len(),
                parts@.len() == i,
                forall|j: int| 0 <= j < i ==> #[trigger] parts@[j]@ == self.parts@[j]@,
            decreases self.parts@.len() - i,
        {
            let c = self.parts[i].clone();
            parts.push(c);
            i = i + 1;
        }
        assert(views(parts@) =~= views(self.parts@));
        SourcePath { absolute: self.absolute, parts }
    }
}

proof fn lemma_split_step(s: Seq<char>, i: int, cur: Seq<char>)
    requires
        0 <= i < s.len(),
    ensures
        s[i] == '/' ==> split_from(s.skip(i), cur) == kept(cur) + split_from(s.skip(i + 1), Seq::empty()),
        s[i] != '/' ==> split_from(s.skip(i), cur) == split_from(s.skip(i + 1), cur.push(s[i])),
{
    assert(s.skip(i).drop_first() =~= s.skip(i + 1));
    assert(s.skip(i)[0] == s[i]);
}

impl SourcePath {
    /// The path that `s` names.
    pub fn parse(s: &str) -> (r: SourcePath)
        ensures
            r@ == path_of(s@),
    {
        let cs = chars_of(s);
        let mut parts: Vec<String> = Vec::new();
        let mut cur: Vec<char> = Vec::new();
        let mut i: usize = 0;
        proof {
            assert(cs@.skip(0) =~= cs@);
            assert(views(parts@) =~= Seq::<Seq<char>>::empty());
            assert(Seq::<Seq<char>>::empty() + split_from(cs@, cur@) =~= split_from(cs@, cur@));
            assert(cur@ =~= Seq::<char>::empty());
        }
        while i < cs.len()
            invariant
                cs@ == s@,
                i <= cs@.len(),
                views(parts@) + split_from(cs@.skip(i as int), cur@) == split_from(cs@, Seq::empty()),
            decreases cs@.len() - i,
        {
            proof { lemma_split_step(cs@, i as int, cur@); }
            let c = cs[i];
            if c == '/' {
                let ghost before = views(parts@);
                let ghost seg = cur@;
                if cur.len() > 0 && !(cur.len() == 1 && cur[0] == '.') {
                    parts.push(string_of(cur.as_slice()));
                } else {
                    proof {
                        if seg.len() == 1 {
                            assert(seg =~= seq!['.']);
                        }
                    }
                }
                proof {
                    assert(views(parts@) =~= before + kept(seg));
                    let rest = split_from(cs@.skip(i + 1), Seq::empty());
                    assert(before + (kept(seg) + rest) =~= (before + kept(seg)) + rest);
                }
                cur = Vec::new();
            } else {
                cur.push(c);
            }
            i = i + 1;
        }
        proof {
            assert(cs@.skip(i as int) =~= Seq::<char>::empty());
        }
        let ghost before = views(parts@);
        let ghost seg = cur@;
        if cur.len() > 0 && !(cur.len() == 1 && cur[0] == '.') {
            parts.push(string_of(cur.as_slice()));
        } else {
            proof {
                if seg.len() == 1 {
                    assert(seg =~= seq!['.']);
                }
            }
        }
        proof {
            assert(views(parts@) =~= before + kept(seg));
        }
        let absolute = cs.len() > 0 && cs[0] == '/';
        SourcePath { absolute, parts }
    }

    /// The text of the path: its components joined by `/`, after a leading
    /// `/` where it is absolute.
    pub fn to_text(&self) -> (r: String)
        ensures
            r@ == text_of(self@),
    {
        let ghost ps = views(self.parts@);
        let ghost lead: Seq<char> = if self.absolute { seq!['/'] } else { Seq::empty() };
        let mut out: Vec<char> = Vec::new();
        if self.absolute {
            out.push('/');
        }
        let mut i: usize = 0;
        proof {
            assert(ps.take(0) =~= Seq::<Seq<char>>::empty());
            assert(out@ =~= lead + joined(ps.take(0)));
        }
        while i < self.parts.len()
            invariant
                i <= self.parts@.len(),
                ps == views(self.parts@),
                out@ == lead + joined(ps.take(i as int)),
            decreases self.parts@.len() - i,
        {
            let ghost before = out@;
            let part = chars_of(self.parts[i].as_str());
            proof {
                let t = ps.take(i + 1);
                assert(t.drop_last() =~= ps.take(i as int));
                assert(t.last() == part@);
            }
            if i > 0 {
                out.push('/');
                extend_chars(&mut out, part.as_slice());
                proof {
                    assert(out@ =~= lead + joined(ps.take(i + 1)));
                }
            } else {
                extend_chars(&mut out, part.as_slice());
                proof {
                    assert(out@ =~= lead + joined(ps.take(i + 1)));
                }
            }
            i = i + 1;
        }
        proof {
            assert(ps.take(i as int) =~= ps);
        }
        string_of(out.as_slice())
    }

    /// Component `i`, as text.
    pub(crate) fn last_part(&self, i: usize) -> (r: String)
        requires
            i < self@.parts.len(),
        ensures
            r@ == self@.parts[i as int],
    {
        self.parts[i].clone()
    }

    /// Whether the path is absolute.
    pub fn is_absolute(&self) -> (r: bool)
        ensures
            r == self@.absolute,
    {
        self.absolute
    }

    /// The number of components.
    pub fn len(&self) -> (r: usize)
        ensures
            r == self@.parts.len(),
    {
        self.parts.len()
    }

    /// Whether `base`'s components lead this path's.
    pub fn starts_with(&self, base: &SourcePath) -> (r: bool)
        ensures
            r == starts_with(self@, base@),
    {
        if self.absolute == base.absolute {
            if base.parts.len() <= self.parts.len() {
                let r = parts_equal(&self.parts, 0, &base.parts, 0, base.parts.len());
                proof {
                    assert(views(self.parts@).subrange(0, base.parts@.len() as int) =~= self@.parts.take(base.parts@.len() as int));
                    assert(views(base.parts@).subrange(0, base.parts@.len() as int) =~= base@.parts);
                }
                r
            } else {
                false
            }
        } else {
            !base.absolute && base.parts.len() == 0
        }
    }

    /// Whether `child`'s components end this path's.
    pub fn ends_with(&self, child: &SourcePath) -> (r: bool)
        ensures
            r == ends_with(self@, child@),
    {
        if child.absolute {
            if self.absolute && self.parts.len() == child.parts.len() {
                let r = parts_equal(&self.parts, 0, &child.parts, 0, child.parts.len());
                proof {
                    assert(views(self.parts@).subrange(0, self.parts@.len() as int) =~= self@.parts);
                    assert(views(child.parts@).subrange(0, child.parts@.len() as int) =~= child@.parts);
                }
                r
            } else {
                false
            }
        } else if child.parts.len() <= self.parts.len() {
            let start = self.parts.len() - child.parts.len();
            let r = parts_equal(&self.parts, start, &child.parts, 0, child.parts.len());
            proof {
                assert(views(self.parts@).subrange(start as int, self.parts@.len() as int) =~= self@.parts.skip(start as int));
                assert(views(child.parts@).subrange(0, child.parts@.len() as int) =~= child@.parts);
            }
            r
        } else {
            false
        }
    }

    /// This path without the first `n` components, relative unless it is
    /// absolute and `keep_root` holds.
    fn drop_parts(&self, n: usize, keep_root: bool) -> (r: SourcePath)
        requires
            n <= self@.parts.len(),
        ensures
            r@ == (PathModel { absolute: self@.absolute && keep_root, parts: self@.parts.skip(n as int) }),
    {
        let mut parts: Vec<String> = Vec::new();
        let mut i: usize = n;
        while i < self.parts.len()
            invariant
                n <= i <= self.parts@.len(),
                parts@.len() == i - n,
                forall|j: int| 0 <= j < i - n ==> #[trigger] parts@[j]@ == self.parts@[j + n]@,
            decreases self.parts@.len() - i,
        {
            let c = self.parts[i].clone();
            parts.push(c);
            i = i + 1;
        }
        let r = SourcePath { absolute: self.absolute && keep_root, parts };
        proof {
            assert(r@.parts =~= self@.parts.skip(n as int));
        }
        r
    }

    /// This path without `base`, which leads it.
    pub fn strip_prefix(&self, base: &SourcePath) -> (r: SourcePath)
        requires
            starts_with(self@, base@),
        ensures
            r@ == strip_prefix(self@, base@),
    {
        self.drop_parts(base.parts.len(), !base.absolute)
    }

    /// `q` where it is absolute, else `q` under this path.
    pub fn join(&self, q: &SourcePath) -> (r: SourcePath)
        ensures
            r@ == join(self@, q@),
    {
        if q.absolute {
            q.clone()
        } else {
            let mut r = self.clone();
            let mut i: usize = 0;
            while i < q.parts.len()
                invariant
                    i <= q.parts@.len(),
                    r@.absolute == self@.absolute,
                    r@.parts == self@.parts + q@.parts.take(i as int),
                decreases q.parts@.len() - i,
            {
                let c = q.parts[i].clone();
                let ghost before = r.parts@;
                r.parts.push(c);
                i = i + 1;
                proof {
                    assert(r.parts@ == before.push(c));
                    assert(views(r.parts@) =~= views(before).push(c@));
                    assert(q@.parts.take(i as int) =~= q@.parts.take(i - 1).push(c@));
                    assert(r@.parts =~= self@.parts + q@.parts.take(i as int));
                }
            }
            proof {
                assert(q@.parts.take(i as int) =~= q@.parts);
            }
            r
        }
    }
}

/// Whether `n` components of `a` from `a_start` equal `n` components of `b`
/// from `b_start`.
fn parts_equal(a: &Vec<String>, a_start: usize, b: &Vec<String>, b_start: usize, n: usize) -> (r: bool)
    requires
        a_start + n <= a@.len(),
        b_start + n <= b@.len(),
    ensures
        r == (views(a@).subrange(a_start as int, a_start + n) == views(b@).subrange(b_start as int, b_start + n)),
{
    let la = a.len();
    let lb = b.len();
    let mut i: usize = 0;
    while i < n
        invariant
            i <= n,
            la == a@.len(),
            lb == b@.len(),
            a_start + n <= a@.len(),
            b_start + n <= b@.len(),
            forall|j: int| 0 <= j < i ==> #[trigger] a@[a_start + j]@ == b@[b_start + j]@,
        decreases n - i,
    {
        if !same_text(a[a_start + i].as_str(), b[b_start + i].as_str()) {
            proof {
                assert(views(a@).subrange(a_start as int, a_start + n)[i as int] != views(b@).subrange(b_start as int, b_start + n)[i as int]);
            }
            return false;
        }
        i = i + 1;
    }
    proof {
        let sa = views(a@).subrange(a_start as int, a_start + n);
        let sb = views(b@).subrange(b_start as int, b_start + n);
        assert forall|j: int| 0 <= j < n implies #[trigger] sa[j] == sb[j] by {
            assert(a@[a_start + j]@ == b@[b_start + j]@);
        }
        assert(views(a@).subrange(a_start as int, a_start + n) =~= views(b@).subrange(b_start as int, b_start + n));
    }
    true
}

/// The content of an optional path.
pub open spec fn opt_view(o: Option<SourcePath>) -> Option<PathModel> {
    match o {
        Some(p) => Some(p@),
        None => None,
    }
}

/// `path` without `prefix` where `prefix` leads it.
pub open spec fn removed_prefix(prefix: Option<PathModel>, path: PathModel) -> PathModel {
    match prefix {
        Some(b) => if starts_with(path, b) {
            strip_prefix(path, b)
        } else {
            path
        },
        None => path,
    }
}

/// Removes the prefix `prefix_dir` from `path`, where it leads it.
pub fn remove_prefix(prefix_dir: &Option<SourcePath>, path: SourcePath) -> (r: SourcePath)
    ensures
        r@ == removed_prefix(opt_view(*prefix_dir), path@),
{
    match prefix_dir {
        Some(b) => if path.starts_with(b) {
            path.strip_prefix(b)
        } else {
            path
        },
        None => path,
    }
}

/// The first `k` components of a relative path.
pub open spec fn leading(path: PathModel, k: int) -> PathModel {
    PathModel { absolute: false, parts: path.parts.take(k) }
}

/// The components of a relative path after the first `k`.
pub open spec fn trailing(path: PathModel, k: int) -> PathModel {
    PathModel { absolute: false, parts: path.parts.skip(k) }
}

/// Whether the first `k` components of `path`, `k` at least one, end `prefix`.
pub open spec fn anchors(prefix: PathModel, path: PathModel, k: int) -> bool {
    1 <= k <= path.parts.len() && ends_with(prefix, leading(path, k))
}

/// The largest `k`, at most `n`, whose first `k` components of `path` end
/// `prefix`; zero where there is none.
pub open spec fn anchor_at_most(prefix: PathModel, path: PathModel, n: nat) -> nat
    decreases n,
{
    if n == 0 {
        0
    } else if anchors(prefix, path, n as int) {
        n
    } else {
        anchor_at_most(prefix, path, (n - 1) as nat)
    }
}

/// The longest ancestor of `path` that ends `prefix`, by its length.
pub open spec fn longest_anchor(prefix: PathModel, path: PathModel) -> nat {
    anchor_at_most(prefix, path, path.parts.len())
}

/// The absolute path guessed for the relative `path` under `prefix`, and
/// the cache after the guess. A cached ancestor that leads `path` is used
/// first; else the longest ancestor of `path` that ends `prefix` is dropped
/// from `path` and cached; else `path` is joined as it is.
pub open spec fn guess(prefix: PathModel, path: PathModel, cache: Option<PathModel>) -> (PathModel, Option<PathModel>) {
    match cache {
        Some(c) if starts_with(path, c) => (join(prefix, strip_prefix(path, c)), cache),
        _ => {
            let k = longest_anchor(prefix, path);
            if k > 0 {
                (join(prefix, trailing(path, k as int)), Some(leading(path, k as int)))
            } else {
                (join(prefix, path), cache)
            }
        },
    }
}

proof fn lemma_anchor_scan(prefix: PathModel, path: PathModel, n: nat, k: nat)
    requires
        k <= n,
        forall|j: int| k < j <= n ==> !anchors(prefix, path, j),
    ensures
        anchor_at_most(prefix, path, n) == anchor_at_most(prefix, path, k),
    decreases n,
{
    if n > k {
        lemma_anchor_scan(prefix, path, (n - 1) as nat, k);
    }
}

impl SourcePath {
    /// The first `n` components, as a relative path.
    fn first_parts(&self, n: usize) -> (r: SourcePath)
        requires
            n <= self@.parts.len(),
        ensures
            r@ == leading(self@, n as int),
    {
        let mut parts: Vec<String> = Vec::new();
        let mut i: usize = 0;
        while i < n
            invariant
                i <= n <= self.parts@.len(),
                parts@.len() == i,
                forall|j: int| 0 <= j < i ==> #[trigger] parts@[j]@ == self.parts@[j]@,
            decreases n - i,
        {
            let c = self.parts[i].clone();
            parts.push(c);
            i = i + 1;
        }
        let r = SourcePath { absolute: false, parts };
        proof {
            assert(r@.parts =~= self@.parts.take(n as int));
        }
        r
    }
}

/// Guesses the absolute path of the relative `path` under `prefix_dir`, by
/// dropping from `path` the part that `prefix_dir` already ends with.
pub fn guess_abs_path(prefix_dir: &SourcePath, path: &SourcePath, cache: &mut Option<SourcePath>) -> (r: SourcePath)
    requires
        !path@.absolute,
    ensures
        (r@, opt_view(*final(cache))) == guess(prefix_dir@, path@, opt_view(*old(cache))),
{
    let hit = match &*cache {
        Some(c) => if path.starts_with(c) {
            Some(prefix_dir.join(&path.strip_prefix(c)))
        } else {
            None
        },
        None => None,
    };
    if let Some(r) = hit {
        return r;
    }
    let n = path.len();
    let mut k: usize = n;
    while k > 0
        invariant
            k <= n,
            n == path@.parts.len(),
            !path@.absolute,
            *cache == *old(cache),
            match opt_view(*old(cache)) {
                Some(c) => !starts_with(path@, c),
                None => true,
            },
            forall|j: int| k < j <= n ==> !anchors(prefix_dir@, path@, j),
        decreases k,
    {
        let anc = path.first_parts(k);
        if prefix_dir.ends_with(&anc) {
            proof {
                lemma_anchor_scan(prefix_dir@, path@, n as nat, k as nat);
            }
            let rest = path.drop_parts(k, false);
            *cache = Some(anc);
            return prefix_dir.join(&rest);
        }
        k = k - 1;
    }
    proof {
        lemma_anchor_scan(prefix_dir@, path@, n as nat, 0);
    }
    prefix_dir.join(path)
}

/// The relative path, corrected after the absolute path was resolved.
pub open spec fn fixed_rel(source_dir: Option<PathModel>, abs: PathModel, rel: PathModel) -> PathModel {
    match source_dir {
        Some(d) => if starts_with(abs, d) {
            strip_prefix(abs, d)
        } else if rel.absolute {
            abs
        } else {
            rel
        },
        None => if rel.absolute {
            abs
        } else {
            rel
        },
    }
}

/// Recomputes the relative path as the part of `abs_path` under
/// `source_dir` where it lies there; otherwise a relative path that is
/// still absolute becomes `abs_path`, with or without a source directory.
pub fn fixup_rel_path(source_dir: &Option<SourcePath>, abs_path: &SourcePath, rel_path: SourcePath) -> (r: SourcePath)
    ensures
        r@ == fixed_rel(opt_view(*source_dir), abs_path@, rel_path@),
{
    match source_dir {
        Some(d) => if abs_path.starts_with(d) {
            abs_path.strip_prefix(d)
        } else if rel_path.is_absolute() {
            abs_path.clone()
        } else {
            rel_path
        },
        None => if rel_path.is_absolute() {
            abs_path.clone()
        } else {
            rel_path
        },
    }
}

/// Whether `d` is the position of the dot that starts the extension of
/// `name`: the last dot, not the first character.
pub open spec fn extension_dot(name: Seq<char>, d: int) -> bool {
    0 < d < name.len() && name[d] == '.' && forall|j: int| d < j < name.len() ==> name[j] != '.'
}

/// `std::path::Path::extension` is `e`: the last component is not `..`, and
/// the characters after its extension dot are `e`.
pub open spec fn has_extension(p: PathModel, e: Seq<char>) -> bool {
    &&& p.parts.len() > 0
    &&& p.parts.last() != seq!['.', '.']
    &&& exists|d: int| extension_dot(p.parts.last(), d) && p.parts.last().skip(d + 1) == e
}

/// Whether the extension of `path` is `e`.
pub fn check_extension(path: &SourcePath, e: &str) -> (r: bool)
    ensures
        r == has_extension(path@, e@),
{
    let n = path.parts.len();
    if n == 0 {
        return false;
    }
    let name = chars_of(path.parts[n - 1].as_str());
    let ghost last = path@.parts.last();
    assert(name@ == last);
    if name.len() == 2 && name[0] == '.' && name[1] == '.' {
        assert(name@ =~= seq!['.', '.']);
        return false;
    }
    let mut d: usize = name.len();
    while d > 0 && name[d - 1] != '.'
        invariant
            d <= name@.len(),
            forall|j: int| d <= j < name@.len() ==> name@[j] != '.',
        decreases d,
    {
        d = d - 1;
    }
    if d <= 1 {
        proof {
            assert forall|x: int| !extension_dot(last, x) by {
                if extension_dot(last, x) {
                    assert(x >= d);
                }
            }
        }
        return false;
    }
    let dot = d - 1;
    let tail = name.as_slice().split_at(d).1;
    let want = chars_of(e);
    let mut same = tail.len() == want.len();
    let mut i: usize = 0;
    while same && i < tail.len()
        invariant
            tail@ == name@.skip(d as int),
            want@ == e@,
            same ==> tail@.len() == want@.len(),
            same ==> forall|j: int| 0 <= j < i ==> tail@[j] == want@[j],
            !same ==> tail@ != want@,
            i <= tail@.len(),
        decreases tail@.len() - i + (if same { 1int } else { 0int }),
    {
        if tail[i] != want[i] {
            same = false;
        } else {
            i = i + 1;
        }
    }
    proof {
        assert(extension_dot(last, dot as int));
        if same {
            assert(tail@ =~= want@);
        }
        assert forall|x: int| extension_dot(last, x) implies x == dot by {
            if x < dot {
                assert(last[dot as int] == '.');
            }
            if x > dot {
                assert(last[x] == '.');
            }
        }
    }
    same
}

/// The absolute path to look up on disk, and the cache after it: an
/// absolute `rel_path` as it is; a relative one guessed under the source
/// directory where there is one, else as it is.
pub open spec fn candidate(source_dir: Option<PathModel>, rel: PathModel, cache: Option<PathModel>) -> (PathModel, Option<PathModel>) {
    if rel.absolute {
        (rel, cache)
    } else {
        match source_dir {
            Some(d) => guess(d, rel, cache),
            None => (rel, cache),
        }
    }
}

/// The absolute path of `rel_path` before it is resolved on disk.
pub fn candidate_abs_path(source_dir: &Option<SourcePath>, rel_path: &SourcePath, cache: &mut Option<SourcePath>) -> (r: SourcePath)
    ensures
        (r@, opt_view(*final(cache))) == candidate(opt_view(*source_dir), rel_path@, opt_view(*old(cache))),
{
    if rel_path.is_absolute() {
        rel_path.clone()
    } else {
        match source_dir {
            Some(d) => guess_abs_path(d, rel_path, cache),
            None => rel_path.clone(),
        }
    }
}

/// The absolute path and the relative path of a file: the absolute path is
/// `canonical`, the path that the disk resolved `candidate` to, where there
/// is one, else `candidate`; the relative path is corrected against it.
pub fn get_abs_path(
    source_dir: &Option<SourcePath>,
    rel_path: SourcePath,
    candidate: SourcePath,
    canonical: Option<SourcePath>,
) -> (r: (SourcePath, SourcePath))
    ensures
        r.0@ == (match canonical {
            Some(c) => c@,
            None => candidate@,
        }),
        r.1@ == fixed_rel(opt_view(*source_dir), r.0@, rel_path@),
{
    let abs_path = match canonical {
        Some(c) => c,
        None => candidate,
    };
    let rel = fixup_rel_path(source_dir, &abs_path, rel_path);
    (abs_path, rel)
}

} // verus!
