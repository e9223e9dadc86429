//! Asset paths, the asset cache and the asset manifest.
use vstd::prelude::*;
use vstd::string::*;

use crate::text::{push_char, push_chars};

verus! {

/// `/` and `\` both separate the segments of an asset path.
pub open spec fn is_separator(c: char) -> bool {
    c == '/' || c == '\\'
}

/// The pieces of `s` between separators, as `str::split` yields them: `n` separators
/// give `n + 1` pieces, some of which may be empty.
pub open spec fn split_segments(s: Seq<char>) -> Seq<Seq<char>>
    decreases s.len(),
{
    if s.len() == 0 {
        seq![Seq::<char>::empty()]
    } else {
        let pieces = split_segments(s.drop_last());
        if is_separator(s.last()) {
            pieces.push(Seq::<char>::empty())
        } else {
            pieces.update(pieces.len() - 1, pieces.last().push(s.last()))
        }
    }
}

/// A segment that names no directory: empty, or `.`.
pub open spec fn is_skipped_segment(seg: Seq<char>) -> bool {
    seg == Seq::<char>::empty() || seg == seq!['.']
}

/// The segment `..`, which asset paths may not use.
pub open spec fn is_parent_segment(seg: Seq<char>) -> bool {
    seg == seq!['.', '.']
}

pub open spec fn has_parent_segment(segs: Seq<Seq<char>>) -> bool {
    exists|i: int| 0 <= i < segs.len() && is_parent_segment(#[trigger] segs[i])
}

/// The segments that are kept, in order.
pub open spec fn kept_segments(segs: Seq<Seq<char>>) -> Seq<Seq<char>>
    decreases segs.len(),
{
    if segs.len() == 0 {
        segs
    } else if is_skipped_segment(segs.last()) {
        kept_segments(segs.drop_last())
    } else {
        kept_segments(segs.drop_last()).push(segs.last())
    }
}

/// The segments joined by `/`.
pub open spec fn join_segments(segs: Seq<Seq<char>>) -> Seq<char>
    decreases segs.len(),
{
    if segs.len() == 0 {
        Seq::<char>::empty()
    } else if segs.len() == 1 {
        segs[0]
    } else {
        join_segments(segs.drop_last()).push('/') + segs.last()
    }
}

/// Why an asset path was refused.
#[derive(Clone, Copy, Debug, PartialEq, Eq)]
pub enum AssetPathError {
    /// The path holds a `..` segment.
    ParentDirectory,
    /// The path names no file: every segment is empty or `.`.
    Empty,
}

/// What `normalize_path` gives for a path.
pub open spec fn normalized(path: Seq<char>) -> Result<Seq<char>, AssetPathError> {
    let segs = split_segments(path);
    if has_parent_segment(segs) {
        Err(AssetPathError::ParentDirectory)
    } else if kept_segments(segs).len() == 0 {
        Err(AssetPathError::Empty)
    } else {
        Ok(join_segments(kept_segments(segs)))
    }
}

pub proof fn lemma_split_nonempty(s: Seq<char>)
    ensures
        split_segments(s).len() >= 1,
    decreases s.len(),
{
    if s.len() > 0 {
        lemma_split_nonempty(s.drop_last());
    }
}

proof fn lemma_has_parent_push(segs: Seq<Seq<char>>, seg: Seq<char>)
    ensures
        has_parent_segment(segs.push(seg)) == (has_parent_segment(segs) || is_parent_segment(seg)),
{
    let s2 = segs.push(seg);
    if has_parent_segment(s2) {
        let i = choose|i: int| 0 <= i < s2.len() && is_parent_segment(#[trigger] s2[i]);
        if i < segs.len() {
            assert(segs[i] == s2[i]);
        }
    }
    if has_parent_segment(segs) {
        let i = choose|i: int| 0 <= i < segs.len() && is_parent_segment(#[trigger] segs[i]);
        assert(s2[i] == segs[i]);
    }
    if is_parent_segment(seg) {
        assert(s2[segs.len() as int] == seg);
    }
}

fn is_skipped(cur: &Vec<char>) -> (r: bool)
    ensures
        r == is_skipped_segment(cur@),
{
    if cur.len() == 0 {
        assert(cur@ =~= Seq::<char>::empty());
        true
    } else if cur.len() == 1 && cur[0] == '.' {
        assert(cur@ =~= seq!['.']);
        true
    } else {
        assert(cur@ != seq!['.'] ==> true);
        if cur.len() == 1 {
            assert(cur@ != seq!['.']) by {
                assert(seq!['.'][0] == '.');
            }
        }
        false
    }
}

/// Completed segments of a prefix stay, in place, among the segments of a longer prefix.
proof fn lemma_split_prefix(s: Seq<char>, j: int, k: int)
    requires
        0 <= j <= k <= s.len(),
    ensures
        split_segments(s.take(j)).len() <= split_segments(s.take(k)).len(),
        forall|x: int|
            0 <= x < split_segments(s.take(j)).len() - 1 ==> #[trigger] split_segments(
                s.take(k),
            )[x] == split_segments(s.take(j))[x],
    decreases k - j,
{
    if j < k {
        lemma_split_prefix(s, j, k - 1);
        assert(s.take(k).drop_last() =~= s.take(k - 1));
        lemma_split_nonempty(s.take(k - 1));
    }
}

fn is_dot_dot_segment(cur: &Vec<char>) -> (r: bool)
    ensures
        r == is_parent_segment(cur@),
{
    if cur.len() == 2 && cur[0] == '.' && cur[1] == '.' {
        assert(cur@ =~= seq!['.', '.']);
        true
    } else {
        false
    }
}

/// Normalizes an asset path: `\` counts as `/`, empty and `.` segments are dropped, and
/// the rest are joined by `/`. A `..` segment, or a path with no segment left, is refused.
pub fn normalize_path(path: &str) -> (r: Result<String, AssetPathError>)
    ensures
        match r {
            Ok(s) => normalized(path@) == Ok::<Seq<char>, AssetPathError>(s@),
            Err(e) => normalized(path@) == Err::<Seq<char>, AssetPathError>(e),
        },
{
    let n = path.unicode_len();
    let mut out = String::new();
    let mut kept: usize = 0;
    let mut cur: Vec<char> = Vec::new();
    let mut i: usize = 0;
    proof {
        assert(path@.take(0) =~= Seq::<char>::empty());
        assert(split_segments(path@.take(0)).drop_last() =~= Seq::<Seq<char>>::empty());
    }
    while i < n
        invariant
            n == path@.len(),
            i <= n,
            split_segments(path@.take(i as int)).len() >= 1,
            cur@ == split_segments(path@.take(i as int)).last(),
            !has_parent_segment(split_segments(path@.take(i as int)).drop_last()),
            out@ == join_segments(kept_segments(split_segments(path@.take(i as int)).drop_last())),
            kept as nat == kept_segments(split_segments(path@.take(i as int)).drop_last()).len(),
            kept + cur.len() <= i,
        decreases n - i,
    {
        let c = path.get_char(i);
        let ghost prefix = path@.take(i as int);
        let ghost pieces = split_segments(prefix);
        let ghost next = path@.take(i + 1);
        proof {
            assert(next.drop_last() =~= prefix);
            assert(next.last() == c);
            lemma_split_nonempty(prefix);
        }
        if c == '/' || c == '\\' {
            if is_dot_dot_segment(&cur) {
                proof {
                    assert(split_segments(next).drop_last() =~= pieces);
                    lemma_split_prefix(path@, i + 1, n as int);
                    assert(path@.take(n as int) =~= path@);
                    let x = pieces.len() - 1;
                    assert(split_segments(path@)[x] == split_segments(next)[x]);
                    assert(is_parent_segment(split_segments(path@)[x]));
                }
                return Err(AssetPathError::ParentDirectory);
            }
            proof {
                assert(split_segments(next).drop_last() =~= pieces);
                assert(pieces =~= pieces.drop_last().push(cur@));
                lemma_has_parent_push(pieces.drop_last(), cur@);
            }
            if is_skipped(&cur) {
                proof {
                    assert(kept_segments(pieces) == kept_segments(pieces.drop_last()));
                }
            } else {
                if kept > 0 {
                    push_char(&mut out, '/');
                }
                push_chars(&mut out, &cur);
                kept = kept + 1;
                proof {
                    let k = kept_segments(pieces.drop_last());
                    assert(kept_segments(pieces) == k.push(cur@));
                    assert(k.push(cur@).drop_last() =~= k);
                    if k.len() == 0 {
                        assert(join_segments(k.push(cur@)) == k.push(cur@)[0]);
                    }
                }
            }
            cur = Vec::new();
            proof {
                assert(split_segments(next).last() =~= Seq::<char>::empty());
            }
        } else {
            cur.push(c);
            proof {
                assert(split_segments(next).drop_last() =~= pieces.drop_last());
            }
        }
        i = i + 1;
    }
    proof {
        assert(path@.take(n as int) =~= path@);
    }
    let ghost pieces = split_segments(path@);
    proof {
        lemma_split_nonempty(path@);
        assert(pieces =~= pieces.drop_last().push(cur@));
        lemma_has_parent_push(pieces.drop_last(), cur@);
    }
    if is_dot_dot_segment(&cur) {
        return Err(AssetPathError::ParentDirectory);
    }
    if is_skipped(&cur) {
        proof {
            assert(kept_segments(pieces) == kept_segments(pieces.drop_last()));
        }
    } else {
        proof {
            if cur.len() == 0 {
                assert(cur@ =~= Seq::<char>::empty());
            }
        }
        if kept > 0 {
            push_char(&mut out, '/');
        }
        push_chars(&mut out, &cur);
        kept = kept + 1;
        proof {
            let k = kept_segments(pieces.drop_last());
            assert(kept_segments(pieces) == k.push(cur@));
            assert(k.push(cur@).drop_last() =~= k);
            if k.len() == 0 {
                assert(join_segments(k.push(cur@)) == k.push(cur@)[0]);
            }
        }
    }
    if kept == 0 {
        return Err(AssetPathError::Empty);
    }
    Ok(out)
}

/// Segments that are all normal join into a path with no `\`, no `/` at either end and
/// no two `/` in a row.
proof fn lemma_join_shape(segs: Seq<Seq<char>>)
    requires
        segs.len() >= 1,
        forall|x: int| 0 <= x < segs.len() ==> is_normal_segment(#[trigger] segs[x]),
    ensures
        ({
            let q = join_segments(segs);
            &&& q.len() > 0
            &&& forall|i: int| 0 <= i < q.len() ==> q[i] != '\\'
            &&& q[0] != '/'
            &&& q[q.len() - 1] != '/'
            &&& forall|i: int| 0 <= i < q.len() - 1 ==> !(#[trigger] q[i] == '/' && q[i + 1] == '/')
        }),
    decreases segs.len(),
{
    let q = join_segments(segs);
    if segs.len() == 1 {
        let seg = segs[0];
        assert(is_normal_segment(seg));
        if seg.len() == 0 {
            assert(seg =~= Seq::<char>::empty());
        }
        assert(q == seg);
        assert forall|i: int| 0 <= i < q.len() implies q[i] != '\\' by {
            assert(!is_separator(seg[i]));
        }
        assert(!is_separator(seg[0]));
        assert(!is_separator(seg[seg.len() - 1]));
        assert forall|i: int| 0 <= i < q.len() - 1 implies !(#[trigger] q[i] == '/' && q[i + 1] == '/') by {
            assert(!is_separator(seg[i]));
        }
    } else {
        let front = segs.drop_last();
        let last = segs.last();
        lemma_join_shape(front);
        let f = join_segments(front);
        let head = f.push('/');
        assert(is_normal_segment(segs[segs.len() - 1]));
        if last.len() == 0 {
            assert(last =~= Seq::<char>::empty());
        }
        assert(q == head + last);
        assert(q[0] == f[0]);
        assert(q[q.len() - 1] == last[last.len() - 1]);
        assert(!is_separator(last[last.len() - 1]));
        assert forall|i: int| 0 <= i < q.len() implies q[i] != '\\' by {
            if i < f.len() {
                assert(q[i] == f[i]);
            } else if i == f.len() {
                assert(q[i] == '/');
            } else {
                assert(q[i] == last[i - f.len() - 1]);
                assert(!is_separator(last[i - f.len() - 1]));
            }
        }
        assert forall|i: int| 0 <= i < q.len() - 1 implies !(#[trigger] q[i] == '/' && q[i + 1] == '/') by {
            if i + 1 < f.len() {
                assert(q[i] == f[i] && q[i + 1] == f[i + 1]);
            } else if i + 1 == f.len() {
                assert(q[i] == f[f.len() - 1]);
            } else if i == f.len() {
                assert(q[i + 1] == last[0]);
                assert(!is_separator(last[0]));
            } else {
                assert(q[i] == last[i - f.len() - 1]);
                assert(!is_separator(last[i - f.len() - 1]));
            }
        }
    }
}

/// A normalized path names a file by plain segments: it is not empty, holds no `\`, has
/// no `/` at either end and no two `/` in a row, and each of its segments is neither
/// `.` nor `..`.
pub proof fn normalized_paths_are_plain(path: Seq<char>)
    requires
        normalized(path) is Ok,
    ensures
        ({
            let q = normalized(path)->Ok_0;
            &&& q.len() > 0
            &&& forall|i: int| 0 <= i < q.len() ==> q[i] != '\\'
            &&& q[0] != '/'
            &&& q[q.len() - 1] != '/'
            &&& forall|i: int| 0 <= i < q.len() - 1 ==> !(#[trigger] q[i] == '/' && q[i + 1] == '/')
            &&& forall|x: int| 0 <= x < split_segments(q).len() ==> is_normal_segment(#[trigger] split_segments(q)[x])
        }),
{
    let segs = split_segments(path);
    let k = kept_segments(segs);
    lemma_split_plain(path);
    lemma_kept_from(segs);
    assert forall|x: int| 0 <= x < k.len() implies is_normal_segment(#[trigger] k[x]) by {
        let y = choose|y: int| 0 <= y < segs.len() && segs[y] == k[x];
        assert(is_plain_segment(segs[y]));
        if is_parent_segment(k[x]) {
            assert(is_parent_segment(segs[y]));
            assert(has_parent_segment(segs));
        }
    }
    lemma_join_shape(k);
    lemma_split_join(k);
}

} // verus!

verus! {

/// No character of `seg` separates segments.
pub open spec fn is_plain_segment(seg: Seq<char>) -> bool {
    forall|i: int| 0 <= i < seg.len() ==> !is_separator(#[trigger] seg[i])
}

/// A segment that a normalized path may hold.
pub open spec fn is_normal_segment(seg: Seq<char>) -> bool {
    &&& is_plain_segment(seg)
    &&& !is_skipped_segment(seg)
    &&& !is_parent_segment(seg)
}

proof fn lemma_split_plain(s: Seq<char>)
    ensures
        forall|x: int|
            0 <= x < split_segments(s).len() ==> is_plain_segment(#[trigger] split_segments(s)[x]),
    decreases s.len(),
{
    if s.len() > 0 {
        lemma_split_plain(s.drop_last());
        lemma_split_nonempty(s.drop_last());
        let pieces = split_segments(s.drop_last());
        if !is_separator(s.last()) {
            let last = pieces.last().push(s.last());
            assert(is_plain_segment(pieces[pieces.len() - 1]));
            assert forall|i: int| 0 <= i < last.len() implies !is_separator(#[trigger] last[i]) by {
                if i < last.len() - 1 {
                    assert(last[i] == pieces.last()[i]);
                }
            }
        } else {
            assert(is_plain_segment(Seq::<char>::empty()));
        }
    }
}

proof fn lemma_split_append_plain(a: Seq<char>, b: Seq<char>)
    requires
        is_plain_segment(b),
    ensures
        split_segments(a + b) == split_segments(a).update(
            split_segments(a).len() - 1,
            split_segments(a).last() + b,
        ),
    decreases b.len(),
{
    lemma_split_nonempty(a);
    if b.len() == 0 {
        assert(a + b =~= a);
        assert(split_segments(a).last() + b =~= split_segments(a).last());
        assert(split_segments(a).update(split_segments(a).len() - 1, split_segments(a).last())
            =~= split_segments(a));
    } else {
        let b0 = b.drop_last();
        assert(is_plain_segment(b0)) by {
            assert forall|i: int| 0 <= i < b0.len() implies !is_separator(#[trigger] b0[i]) by {
                assert(b0[i] == b[i]);
            }
        }
        lemma_split_append_plain(a, b0);
        assert((a + b).drop_last() =~= a + b0);
        assert((a + b).last() == b[b.len() - 1]);
        assert(!is_separator(b[b.len() - 1]));
        let pa = split_segments(a);
        assert((pa.last() + b0).push(b.last()) =~= pa.last() + b);
        assert(pa.update(pa.len() - 1, pa.last() + b0).update(pa.len() - 1, pa.last() + b)
            =~= pa.update(pa.len() - 1, pa.last() + b));
    }
}

proof fn lemma_kept_normal(segs: Seq<Seq<char>>)
    requires
        forall|x: int| 0 <= x < segs.len() ==> is_normal_segment(#[trigger] segs[x]),
    ensures
        kept_segments(segs) == segs,
    decreases segs.len(),
{
    if segs.len() > 0 {
        assert(is_normal_segment(segs[segs.len() - 1]));
        lemma_kept_normal(segs.drop_last());
        assert(segs.drop_last().push(segs.last()) =~= segs);
    }
}

proof fn lemma_kept_from(segs: Seq<Seq<char>>)
    ensures
        forall|x: int|
            0 <= x < kept_segments(segs).len() ==> !is_skipped_segment(
                #[trigger] kept_segments(segs)[x],
            ) && exists|y: int| 0 <= y < segs.len() && segs[y] == kept_segments(segs)[x],
    decreases segs.len(),
{
    if segs.len() > 0 {
        lemma_kept_from(segs.drop_last());
        let k0 = kept_segments(segs.drop_last());
        assert forall|x: int| 0 <= x < kept_segments(segs).len() implies !is_skipped_segment(
            #[trigger] kept_segments(segs)[x],
        ) && exists|y: int| 0 <= y < segs.len() && segs[y] == kept_segments(segs)[x] by {
            if x < k0.len() {
                assert(kept_segments(segs)[x] == k0[x]);
                let y = choose|y: int| 0 <= y < segs.drop_last().len() && segs.drop_last()[y] == k0[x];
                assert(segs[y] == segs.drop_last()[y]);
            } else {
                assert(segs[segs.len() - 1] == kept_segments(segs)[x]);
            }
        }
    }
}

proof fn lemma_split_join(segs: Seq<Seq<char>>)
    requires
        segs.len() >= 1,
        forall|x: int| 0 <= x < segs.len() ==> is_plain_segment(#[trigger] segs[x]),
    ensures
        split_segments(join_segments(segs)) == segs,
    decreases segs.len(),
{
    if segs.len() == 1 {
        lemma_split_append_plain(Seq::<char>::empty(), segs[0]);
        assert(Seq::<char>::empty() + segs[0] =~= segs[0]);
        assert(split_segments(Seq::<char>::empty()) =~= seq![Seq::<char>::empty()]);
        assert(seq![Seq::<char>::empty()].update(0, Seq::<char>::empty() + segs[0]) =~= segs);
    } else {
        let front = segs.drop_last();
        lemma_split_join(front);
        let j = join_segments(front).push('/');
        assert(j.drop_last() =~= join_segments(front));
        assert(split_segments(j) == split_segments(join_segments(front)).push(Seq::<char>::empty()));
        assert(is_plain_segment(segs[segs.len() - 1]));
        lemma_split_append_plain(j, segs.last());
        assert(Seq::<char>::empty() + segs.last() =~= segs.last());
        assert(front.push(Seq::<char>::empty()).update(front.len() as int, segs.last()) =~= segs);
    }
}

/// Normalizing a normalized path gives it back unchanged.
pub proof fn normalize_path_is_idempotent(path: Seq<char>)
    requires
        normalized(path) is Ok,
    ensures
        normalized(normalized(path)->Ok_0) == normalized(path),
{
    let segs = split_segments(path);
    let k = kept_segments(segs);
    lemma_split_plain(path);
    lemma_kept_from(segs);
    assert forall|x: int| 0 <= x < k.len() implies is_normal_segment(#[trigger] k[x]) by {
        let y = choose|y: int| 0 <= y < segs.len() && segs[y] == k[x];
        assert(is_plain_segment(segs[y]));
        if is_parent_segment(k[x]) {
            assert(is_parent_segment(segs[y]));
            assert(has_parent_segment(segs));
        }
    }
    lemma_split_join(k);
    lemma_kept_normal(k);
    if has_parent_segment(k) {
        let x = choose|x: int| 0 <= x < k.len() && is_parent_segment(#[trigger] k[x]);
        assert(is_normal_segment(k[x]));
    }
}

} // verus!

verus! {

/// Whether `path` is the normal form of some asset path.
pub open spec fn is_normalized(path: Seq<char>) -> bool {
    normalized(path) == Ok::<Seq<char>, AssetPathError>(path)
}

/// The cache of asset bytes, keyed by normalized path.
pub struct Assets {
    entries: Vec<(String, Vec<u8>)>,
    root: String,
}

/// What `Assets::prepare_load` asks of its caller.
pub enum LoadStep {
    /// The asset is cached: these are its bytes.
    Cached(Vec<u8>),
    /// The asset must be fetched from this normalized path under the root, then stored.
    Fetch(String),
}

impl Assets {
    /// The cached assets: normalized path to bytes.
    pub closed spec fn view(&self) -> Map<Seq<char>, Seq<u8>> {
        Map::new(
            |k: Seq<char>| exists|i: int| 0 <= i < self.entries.len() && self.entries[i].0@ == k,
            |k: Seq<char>|
                {
                    let i = choose|i: int| 0 <= i < self.entries.len() && self.entries[i].0@ == k;
                    self.entries[i].1@
                },
        )
    }

    /// The root that asset paths are resolved against.
    pub closed spec fn root_view(&self) -> Seq<char> {
        self.root@
    }

    /// Each path occurs once, and each is normalized.
    pub closed spec fn wf(&self) -> bool {
        &&& forall|i: int, j: int|
            0 <= i < j < self.entries.len() ==> self.entries[i].0@ != self.entries[j].0@
        &&& forall|i: int| 0 <= i < self.entries.len() ==> is_normalized(#[trigger] self.entries[i].0@)
    }

    proof fn lemma_view_at(&self, i: int)
        requires
            self.wf(),
            0 <= i < self.entries.len(),
        ensures
            self.view().contains_key(self.entries[i].0@),
            self.view()[self.entries[i].0@] == self.entries[i].1@,
    {
        let k = self.entries[i].0@;
        assert(self.view().dom().contains(k));
        let j = choose|j: int| 0 <= j < self.entries.len() && self.entries[j].0@ == k;
        if j != i {
            if j < i {
                assert(self.entries[j].0@ != self.entries[i].0@);
            } else {
                assert(self.entries[i].0@ != self.entries[j].0@);
            }
        }
    }

    /// An empty cache whose assets live under `root`. The caller resolves `root` first.
    pub fn new(root: String) -> (r: Assets)
        ensures
            r.wf(),
            r.view() == Map::<Seq<char>, Seq<u8>>::empty(),
            r.root_view() == root@,
    {
        let r = Assets { entries: Vec::new(), root };
        assert(r.view() =~= Map::<Seq<char>, Seq<u8>>::empty());
        r
    }

    /// The root that asset paths are resolved against.
    pub fn root(&self) -> (r: &String)
        ensures
            r@ == self.root_view(),
    {
        &self.root
    }

    fn find(&self, key: &String) -> (r: Option<usize>)
        requires
            self.wf(),
        ensures
            match r {
                Some(i) => i < self.entries.len() && self.entries[i as int].0@ == key@,
                None => !self.view().contains_key(key@),
            },
    {
        let mut i: usize = 0;
        while i < self.entries.len()
            invariant
                i <= self.entries.len(),
                forall|j: int| 0 <= j < i ==> self.entries[j].0@ != key@,
            decreases self.entries.len() - i,
        {
            if self.entries[i].0 == *key {
                return Some(i);
            }
            i = i + 1;
        }
        proof {
            if self.view().contains_key(key@) {
                let j = choose|j: int| 0 <= j < self.entries.len() && self.entries[j].0@ == key@;
                assert(self.entries[j].0@ != key@);
            }
        }
        None
    }

    fn lookup(&self, key: &String) -> (r: Option<Vec<u8>>)
        requires
            self.wf(),
        ensures
            match r {
                Some(v) => self.view().contains_key(key@) && v@ == self.view()[key@],
                None => !self.view().contains_key(key@),
            },
    {
        match self.find(key) {
            Some(i) => {
                proof {
                    self.lemma_view_at(i as int);
                }
                Some(self.entries[i].1.clone())
            },
            None => None,
        }
    }

    /// The cached bytes of `path`, if the path is valid and the asset was loaded.
    pub fn get(&self, path: &str) -> (r: Option<Vec<u8>>)
        requires
            self.wf(),
        ensures
            match normalized(path@) {
                Ok(k) => match r {
                    Some(v) => self.view().contains_key(k) && v@ == self.view()[k],
                    None => !self.view().contains_key(k),
                },
                Err(_) => r is None,
            },
    {
        match normalize_path(path) {
            Ok(key) => self.lookup(&key),
            Err(_) => None,
        }
    }

    /// The cached bytes of `path`, which must have been loaded.
    pub fn require(&self, path: &str) -> (r: Vec<u8>)
        requires
            self.wf(),
            normalized(path@) is Ok,
            self.view().contains_key(normalized(path@)->Ok_0),
        ensures
            r@ == self.view()[normalized(path@)->Ok_0],
    {
        match self.get(path) {
            Some(v) => v,
            None => {
                assert(false);
                Vec::new()
            },
        }
    }

    /// The first half of loading `path`: its cached bytes, or the normalized path to fetch.
    pub fn prepare_load(&self, path: &str) -> (r: Result<LoadStep, AssetPathError>)
        requires
            self.wf(),
        ensures
            match normalized(path@) {
                Err(e) => r == Err::<LoadStep, AssetPathError>(e),
                Ok(k) => match r {
                    Ok(LoadStep::Cached(v)) => self.view().contains_key(k) && v@ == self.view()[k],
                    Ok(LoadStep::Fetch(p)) => !self.view().contains_key(k) && p@ == k,
                    Err(_) => false,
                },
            },
    {
        match normalize_path(path) {
            Ok(key) => match self.lookup(&key) {
                Some(v) => Ok(LoadStep::Cached(v)),
                None => Ok(LoadStep::Fetch(key)),
            },
            Err(e) => Err(e),
        }
    }

    /// The second half of loading: caches the fetched bytes under the normalized path.
    pub fn store(&mut self, path: String, data: Vec<u8>)
        requires
            old(self).wf(),
            is_normalized(path@),
        ensures
            final(self).wf(),
            final(self).view() == old(self).view().insert(path@, data@),
            final(self).root_view() == old(self).root_view(),
    {
        let ghost old_self = *self;
        let ghost key = path@;
        let ghost bytes = data@;
        match self.find(&path) {
            Some(i) => {
                self.entries.set(i, (path, data));
                proof {
                    assert forall|a: int, b: int|
                        0 <= a < b < self.entries.len() implies self.entries[a].0@
                        != self.entries[b].0@ by {
                        assert(old_self.entries[a].0@ != old_self.entries[b].0@);
                    }
                    assert forall|k: Seq<char>| #[trigger] self.view().contains_key(k) <==> old_self.view().insert(key, bytes).contains_key(k) by {
                        if self.view().contains_key(k) {
                            let j = choose|j: int| 0 <= j < self.entries.len() && self.entries[j].0@ == k;
                            if j != i as int {
                                assert(old_self.entries[j].0@ == k);
                            }
                        }
                        if old_self.view().contains_key(k) {
                            let j = choose|j: int| 0 <= j < old_self.entries.len() && old_self.entries[j].0@ == k;
                            assert(self.entries[j].0@ == k);
                        }
                        if k == key {
                            assert(self.entries[i as int].0@ == k);
                        }
                    }
                    assert forall|k: Seq<char>| #[trigger] self.view().contains_key(k) implies self.view()[k] == old_self.view().insert(key, bytes)[k] by {
                        let j = choose|j: int| 0 <= j < self.entries.len() && self.entries[j].0@ == k;
                        self.lemma_view_at(j);
                        if j != i as int {
                            old_self.lemma_view_at(j);
                        }
                    }
                    assert(self.view() =~= old_self.view().insert(key, bytes));
                }
            },
            None => {
                self.entries.push((path, data));
                proof {
                    let n = old_self.entries.len() as int;
                    assert forall|a: int, b: int|
                        0 <= a < b < self.entries.len() implies self.entries[a].0@
                        != self.entries[b].0@ by {
                        if b == n {
                            assert(old_self.view().contains_key(old_self.entries[a].0@));
                        } else {
                            assert(old_self.entries[a].0@ != old_self.entries[b].0@);
                        }
                    }
                    assert forall|k: Seq<char>| #[trigger] self.view().contains_key(k) <==> old_self.view().insert(key, bytes).contains_key(k) by {
                        if self.view().contains_key(k) {
                            let j = choose|j: int| 0 <= j < self.entries.len() && self.entries[j].0@ == k;
                            if j != n {
                                assert(old_self.entries[j].0@ == k);
                            }
                        }
                        if old_self.view().contains_key(k) {
                            let j = choose|j: int| 0 <= j < old_self.entries.len() && old_self.entries[j].0@ == k;
                            assert(self.entries[j].0@ == k);
                        }
                        if k == key {
                            assert(self.entries[n].0@ == k);
                        }
                    }
                    assert forall|k: Seq<char>| #[trigger] self.view().contains_key(k) implies self.view()[k] == old_self.view().insert(key, bytes)[k] by {
                        let j = choose|j: int| 0 <= j < self.entries.len() && self.entries[j].0@ == k;
                        self.lemma_view_at(j);
                        if j != n {
                            old_self.lemma_view_at(j);
                        }
                    }
                    assert(self.view() =~= old_self.view().insert(key, bytes));
                }
            },
        }
    }
}

} // verus!

verus! {

/// The characters of each string, in order.
pub open spec fn string_views(v: Seq<String>) -> Seq<Seq<char>> {
    v.map_values(|s: String| s@)
}

/// The characters of each string slice, in order.
pub open spec fn str_views(v: Seq<&str>) -> Seq<Seq<char>> {
    v.map_values(|s: &str| s@)
}

/// Which of the paths handed to a batch load still have to be loaded.
pub struct LoadAllPlan {
    seen: Vec<String>,
}

impl LoadAllPlan {
    /// The normalized paths taken so far, in order.
    pub closed spec fn view(&self) -> Seq<Seq<char>> {
        string_views(self.seen@)
    }

    pub fn new() -> (r: LoadAllPlan)
        ensures
            r.view() == Seq::<Seq<char>>::empty(),
    {
        let r = LoadAllPlan { seen: Vec::new() };
        assert(r.view() =~= Seq::<Seq<char>>::empty());
        r
    }

    /// Takes the next path of the batch. An invalid path is refused; a path whose normal
    /// form was taken before gives `None`; any other gives its normal form, to be loaded.
    pub fn take_path(&mut self, path: &str) -> (r: Result<Option<String>, AssetPathError>)
        ensures
            match normalized(path@) {
                Err(e) => r == Err::<Option<String>, AssetPathError>(e) && final(self).view()
                    == old(self).view(),
                Ok(k) => if old(self).view().contains(k) {
                    r matches Ok(None) && final(self).view() == old(self).view()
                } else {
                    r matches Ok(Some(p)) && p@ == k && final(self).view() == old(self).view().push(k)
                },
            },
    {
        let key = match normalize_path(path) {
            Ok(key) => key,
            Err(e) => return Err(e),
        };
        let mut i: usize = 0;
        while i < self.seen.len()
            invariant
                i <= self.seen.len(),
                *self == *old(self),
                normalized(path@) == Ok::<Seq<char>, AssetPathError>(key@),
                forall|j: int| 0 <= j < i ==> self.seen@[j]@ != key@,
            decreases self.seen.len() - i,
        {
            if self.seen[i] == key {
                proof {
                    assert(self.view().len() == self.seen@.len());
                    assert(self.view()[i as int] == key@);
                    assert(self.view().contains(key@));
                }
                return Ok(None);
            }
            i = i + 1;
        }
        proof {
            if self.view().contains(key@) {
                let j = choose|j: int| 0 <= j < self.view().len() && self.view()[j] == key@;
                assert(self.seen@[j]@ == key@);
            }
        }
        let ghost before = self.view();
        self.seen.push(key.clone());
        assert(self.view() =~= before.push(key@));
        Ok(Some(key))
    }
}

/// The list of asset paths that a game preloads.
#[derive(Clone)]
pub struct AssetManifest {
    paths: Vec<String>,
}

impl AssetManifest {
    /// The paths, in the order they were added.
    pub closed spec fn view(&self) -> Seq<Seq<char>> {
        string_views(self.paths@)
    }

    pub fn new() -> (r: AssetManifest)
        ensures
            r.view() == Seq::<Seq<char>>::empty(),
    {
        let r = AssetManifest { paths: Vec::new() };
        assert(r.view() =~= Seq::<Seq<char>>::empty());
        r
    }

    /// Adds one path at the end.
    pub fn file(self, path: &str) -> (r: AssetManifest)
        ensures
            r.view() == self.view().push(path@),
    {
        let mut paths = self.paths;
        paths.push(path.to_owned());
        let r = AssetManifest { paths };
        assert(r.view() =~= self.view().push(path@));
        r
    }

    /// Adds the paths at the end, in order.
    pub fn extend(self, more: &[&str]) -> (r: AssetManifest)
        ensures
            r.view() == self.view() + str_views(more@),
    {
        let mut r = self;
        let ghost start = r.view();
        let mut i: usize = 0;
        while i < more.len()
            invariant
                i <= more.len(),
                r.view() == start + str_views(more@.take(i as int)),
            decreases more.len() - i,
        {
            r = r.file(more[i]);
            assert(str_views(more@.take(i + 1)) =~= str_views(more@.take(i as int)).push(more@[i as int]@));
            i = i + 1;
        }
        assert(more@.take(more.len() as int) =~= more@);
        r
    }

    /// The paths, in order.
    pub fn iter(&self) -> (r: Vec<String>)
        ensures
            string_views(r@) == self.view(),
    {
        let mut r: Vec<String> = Vec::new();
        let mut i: usize = 0;
        while i < self.paths.len()
            invariant
                i <= self.paths.len(),
                string_views(r@) == string_views(self.paths@.take(i as int)),
            decreases self.paths.len() - i,
        {
            let ghost before = r@;
            assert(string_views(before).len() == before.len());
            assert(before.len() == i);
            let c = self.paths[i].clone();
            assert(c == self.paths@[i as int]);
            r.push(c);
            assert(r@ == before.push(c));
            assert(string_views(r@).len() == i + 1);
            assert forall|j: int| 0 <= j < i + 1 implies string_views(r@)[j] == string_views(self.paths@.take(i + 1))[j] by {
                if j < i {
                    assert(string_views(before)[j] == string_views(self.paths@.take(i as int))[j]);
                }
            }
            assert(string_views(r@) =~= string_views(self.paths@.take(i + 1)));
            i = i + 1;
        }
        assert(self.paths@.take(self.paths.len() as int) =~= self.paths@);
        r
    }
}

/// Storing bytes under a normalized path and then asking for any spelling of that path
/// gives the stored bytes back.
pub proof fn get_after_store(before: Assets, after: Assets, stored: Seq<char>, data: Seq<u8>, path: Seq<char>)
    requires
        is_normalized(stored),
        after.view() == before.view().insert(stored, data),
        normalized(path) == Ok::<Seq<char>, AssetPathError>(stored),
    ensures
        after.view().contains_key(normalized(path)->Ok_0),
        after.view()[normalized(path)->Ok_0] == data,
{
}

} // verus!
