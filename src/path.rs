use vstd::prelude::*;

verus! {

pub const SEPARATOR: u8 = 47;

pub const DOT: u8 = 46;

/// The abstract value of a path: whether it starts at the root, and its segments.
pub struct PathModel {
    pub absolute: bool,
    pub parts: Seq<Seq<u8>>,
}

/// A segment is a non-empty byte string without a separator that is neither `.` nor `..`.
pub open spec fn valid_segment(s: Seq<u8>) -> bool {
    &&& s.len() > 0
    &&& forall|i: int| 0 <= i < s.len() ==> s[i] != SEPARATOR
    &&& s != seq![DOT]
    &&& s != seq![DOT, DOT]
}

pub open spec fn valid_parts(parts: Seq<Seq<u8>>) -> bool {
    forall|i: int| 0 <= i < parts.len() ==> valid_segment(#[trigger] parts[i])
}

/// The segments written out with a separator between each two.
pub open spec fn joined(parts: Seq<Seq<u8>>) -> Seq<u8>
    decreases parts.len(),
{
    if parts.len() == 0 {
        Seq::empty()
    } else if parts.len() == 1 {
        parts[0]
    } else {
        joined(parts.drop_last()) + seq![SEPARATOR] + parts.last()
    }
}

/// The textual form of a path: a leading separator for an absolute path, then the segments.
pub open spec fn render(m: PathModel) -> Seq<u8> {
    if m.absolute {
        seq![SEPARATOR] + joined(m.parts)
    } else {
        joined(m.parts)
    }
}

/// The path one segment up; the empty path and the root have none.
pub open spec fn parent_of(m: PathModel) -> Option<PathModel> {
    if m.parts.len() == 0 {
        None
    } else {
        Some(PathModel { absolute: m.absolute, parts: m.parts.drop_last() })
    }
}

/// `rel`'s segments appended to `base`.
pub open spec fn join_of(base: PathModel, rel: PathModel) -> PathModel {
    PathModel { absolute: base.absolute, parts: base.parts + rel.parts }
}

/// The byte strings that a vector of segments holds.
pub open spec fn segs(v: Seq<Vec<u8>>) -> Seq<Seq<u8>> {
    v.map_values(|s: Vec<u8>| s@)
}

pub fn copy_bytes(v: &Vec<u8>) -> (r: Vec<u8>)
    ensures
        r@ == v@,
{
    let r = v.clone();
    assert(r@ =~= v@);
    r
}

fn push_segment(parts: &mut Vec<Vec<u8>>, s: &Vec<u8>)
    ensures
        segs(final(parts)@) == segs(old(parts)@).push(s@),
{
    parts.push(copy_bytes(s));
    assert(segs(parts@) =~= segs(old(parts)@).push(s@));
}

/// Byte-wise lexicographic order: the first differing byte decides, and a proper prefix comes first.
pub open spec fn bytes_order(a: Seq<u8>, b: Seq<u8>) -> core::cmp::Ordering
    decreases a.len(),
{
    if a.len() == 0 {
        if b.len() == 0 {
            core::cmp::Ordering::Equal
        } else {
            core::cmp::Ordering::Less
        }
    } else if b.len() == 0 {
        core::cmp::Ordering::Greater
    } else if a[0] < b[0] {
        core::cmp::Ordering::Less
    } else if a[0] > b[0] {
        core::cmp::Ordering::Greater
    } else {
        bytes_order(a.drop_first(), b.drop_first())
    }
}

pub fn compare_bytes(a: &Vec<u8>, b: &Vec<u8>) -> (r: core::cmp::Ordering)
    ensures
        r == bytes_order(a@, b@),
{
    let mut i: usize = 0;
    assert(a@.subrange(0, a@.len() as int) =~= a@);
    assert(b@.subrange(0, b@.len() as int) =~= b@);
    while i < a.len() && i < b.len()
        invariant
            0 <= i <= a.len(),
            i <= b.len(),
            bytes_order(a@, b@) == bytes_order(
                a@.subrange(i as int, a@.len() as int),
                b@.subrange(i as int, b@.len() as int),
            ),
        decreases a.len() - i,
    {
        let ghost sa = a@.subrange(i as int, a@.len() as int);
        let ghost sb = b@.subrange(i as int, b@.len() as int);
        assert(sa[0] == a@[i as int] && sb[0] == b@[i as int]);
        if a[i] < b[i] {
            return core::cmp::Ordering::Less;
        }
        if a[i] > b[i] {
            return core::cmp::Ordering::Greater;
        }
        assert(sa.drop_first() =~= a@.subrange(i + 1, a@.len() as int));
        assert(sb.drop_first() =~= b@.subrange(i + 1, b@.len() as int));
        i += 1;
    }
    let ghost sa = a@.subrange(i as int, a@.len() as int);
    let ghost sb = b@.subrange(i as int, b@.len() as int);
    if a.len() == i && b.len() == i {
        assert(sa.len() == 0 && sb.len() == 0);
        core::cmp::Ordering::Equal
    } else if a.len() == i {
        assert(sa.len() == 0 && sb.len() > 0);
        core::cmp::Ordering::Less
    } else {
        assert(sa.len() > 0 && sb.len() == 0);
        core::cmp::Ordering::Greater
    }
}

/// A path on either side of a sync, held as its segments.
#[derive(Debug)]
pub struct PathName {
    pub absolute: bool,
    pub parts: Vec<Vec<u8>>,
}

impl View for PathName {
    type V = PathModel;

    open spec fn view(&self) -> PathModel {
        PathModel { absolute: self.absolute, parts: segs(self.parts@) }
    }
}

pub fn bytes_equal(a: &Vec<u8>, b: &Vec<u8>) -> (r: bool)
    ensures
        r == (a@ == b@),
{
    if a.len() != b.len() {
        return false;
    }
    let mut i: usize = 0;
    while i < a.len()
        invariant
            a.len() == b.len(),
            0 <= i <= a.len(),
            forall|j: int| 0 <= j < i ==> a@[j] == b@[j],
        decreases a.len() - i,
    {
        if a[i] != b[i] {
            return false;
        }
        i += 1;
    }
    assert(a@ =~= b@);
    true
}

pub fn is_valid_segment(s: &Vec<u8>) -> (r: bool)
    ensures
        r == valid_segment(s@),
{
    if s.len() == 0 {
        return false;
    }
    let mut i: usize = 0;
    while i < s.len()
        invariant
            0 <= i <= s.len(),
            forall|j: int| 0 <= j < i ==> s@[j] != SEPARATOR,
        decreases s.len() - i,
    {
        if s[i] == SEPARATOR {
            return false;
        }
        i += 1;
    }
    if s.len() == 1 && s[0] == DOT {
        assert(s@ =~= seq![DOT]);
        return false;
    }
    if s.len() == 2 && s[0] == DOT && s[1] == DOT {
        assert(s@ =~= seq![DOT, DOT]);
        return false;
    }
    proof {
        if s@ == seq![DOT] {
            assert(s@[0] == DOT);
        }
        if s@ == seq![DOT, DOT] {
            assert(s@[0] == DOT && s@[1] == DOT);
        }
    }
    true
}

impl PathName {
    pub open spec fn wf(&self) -> bool {
        valid_parts(self@.parts)
    }

    /// The empty relative path.
    pub fn empty() -> (r: PathName)
        ensures
            r@ == (PathModel { absolute: false, parts: Seq::empty() }),
            r.wf(),
    {
        let r = PathName { absolute: false, parts: Vec::new() };
        assert(r@.parts =~= Seq::<Seq<u8>>::empty());
        r
    }

    /// The root directory.
    pub fn root() -> (r: PathName)
        ensures
            r@ == (PathModel { absolute: true, parts: Seq::empty() }),
            r.wf(),
    {
        let r = PathName { absolute: true, parts: Vec::new() };
        assert(r@.parts =~= Seq::<Seq<u8>>::empty());
        r
    }

    /// A path from its segments; `None` when one of them is not a valid segment.
    pub fn from_parts(absolute: bool, parts: Vec<Vec<u8>>) -> (r: Option<PathName>)
        ensures
            r is Some <==> valid_parts(segs(parts@)),
            r matches Some(p) ==> p@ == (PathModel { absolute, parts: segs(parts@) }) && p.wf(),
    {
        let mut i: usize = 0;
        while i < parts.len()
            invariant
                0 <= i <= parts.len(),
                forall|j: int| 0 <= j < i ==> valid_segment(#[trigger] segs(parts@)[j]),
            decreases parts.len() - i,
        {
            if !is_valid_segment(&parts[i]) {
                assert(!valid_segment(segs(parts@)[i as int]));
                return None;
            }
            i += 1;
        }
        Some(PathName { absolute, parts })
    }

    /// A second path equal to this one.
    pub fn duplicate(&self) -> (r: PathName)
        ensures
            r@ == self@,
            self.wf() ==> r.wf(),
    {
        let r = self.join(&PathName::empty());
        assert(r@.parts =~= self@.parts);
        r
    }

    pub fn is_empty(&self) -> (r: bool)
        ensures
            r == (self@.parts.len() == 0),
    {
        self.parts.len() == 0
    }

    /// Whether two paths are the same, segment by segment.
    pub fn same_as(&self, other: &PathName) -> (r: bool)
        ensures
            r == (self@ == other@),
    {
        if self.absolute != other.absolute || self.parts.len() != other.parts.len() {
            proof {
                if self@ == other@ {
                    assert(self@.parts.len() == other@.parts.len());
                }
            }
            return false;
        }
        let mut i: usize = 0;
        while i < self.parts.len()
            invariant
                self.parts.len() == other.parts.len(),
                0 <= i <= self.parts.len(),
                forall|j: int| 0 <= j < i ==> segs(self.parts@)[j] == segs(other.parts@)[j],
            decreases self.parts.len() - i,
        {
            if !bytes_equal(&self.parts[i], &other.parts[i]) {
                assert(self@.parts[i as int] != other@.parts[i as int]);
                return false;
            }
            i += 1;
        }
        assert(self@.parts =~= other@.parts);
        true
    }

    /// The path one segment up, or `None` for the empty path and the root.
    pub fn parent(&self) -> (r: Option<PathName>)
        ensures
            r matches Some(p) ==> Some(p@) == parent_of(self@),
            r is None ==> parent_of(self@) is None,
            self.wf() ==> (r matches Some(p) ==> p.wf()),
    {
        if self.parts.len() == 0 {
            return None;
        }
        let mut parts: Vec<Vec<u8>> = Vec::new();
        let n = self.parts.len() - 1;
        let mut i: usize = 0;
        while i < n
            invariant
                n == self.parts.len() - 1,
                0 <= i <= n,
                segs(parts@) =~= segs(self.parts@).subrange(0, i as int),
            decreases n - i,
        {
            push_segment(&mut parts, &self.parts[i]);
            i += 1;
        }
        assert(segs(parts@) =~= self@.parts.drop_last());
        Some(PathName { absolute: self.absolute, parts })
    }

    /// `rel`'s segments appended to this path.
    pub fn join(&self, rel: &PathName) -> (r: PathName)
        ensures
            r@ == join_of(self@, rel@),
            self.wf() && rel.wf() ==> r.wf(),
    {
        let mut parts: Vec<Vec<u8>> = Vec::new();
        let mut i0: usize = 0;
        while i0 < self.parts.len()
            invariant
                0 <= i0 <= self.parts.len(),
                segs(parts@) =~= segs(self.parts@).subrange(0, i0 as int),
            decreases self.parts.len() - i0,
        {
            push_segment(&mut parts, &self.parts[i0]);
            i0 += 1;
        }
        let ghost base = segs(self.parts@);
        assert(segs(parts@) =~= base);
        let mut i: usize = 0;
        while i < rel.parts.len()
            invariant
                0 <= i <= rel.parts.len(),
                base == segs(self.parts@),
                segs(parts@) =~= base + segs(rel.parts@).subrange(0, i as int),
            decreases rel.parts.len() - i,
        {
            push_segment(&mut parts, &rel.parts[i]);
            i += 1;
        }
        assert(segs(rel.parts@).subrange(0, rel.parts.len() as int) =~= segs(rel.parts@));
        let r = PathName { absolute: self.absolute, parts };
        proof {
            if self.wf() && rel.wf() {
                assert forall|k: int| 0 <= k < r@.parts.len() implies valid_segment(#[trigger] r@.parts[k]) by {
                    if k < base.len() {
                        assert(r@.parts[k] == self@.parts[k]);
                    } else {
                        assert(r@.parts[k] == rel@.parts[k - base.len()]);
                    }
                }
            }
        }
        r
    }

    /// The textual form: a leading separator when absolute, segments separated by it.
    pub fn to_bytes(&self) -> (r: Vec<u8>)
        ensures
            r@ == render(self@),
    {
        let mut out: Vec<u8> = Vec::new();
        if self.absolute {
            out.push(SEPARATOR);
        }
        let ghost head = out@;
        let mut i: usize = 0;
        while i < self.parts.len()
            invariant
                0 <= i <= self.parts.len(),
                head == (if self.absolute { seq![SEPARATOR] } else { Seq::<u8>::empty() }),
                out@ =~= head + joined(segs(self.parts@).subrange(0, i as int)),
            decreases self.parts.len() - i,
        {
            let ghost before = segs(self.parts@).subrange(0, i as int);
            let ghost after = segs(self.parts@).subrange(0, i + 1);
            assert(after.drop_last() =~= before);
            if i > 0 {
                out.push(SEPARATOR);
            }
            let seg = &self.parts[i];
            let mut k: usize = 0;
            let ghost mid = out@;
            while k < seg.len()
                invariant
                    0 <= k <= seg.len(),
                    out@ =~= mid + seg@.subrange(0, k as int),
                decreases seg.len() - k,
            {
                out.push(seg[k]);
                k += 1;
            }
            assert(seg@.subrange(0, seg.len() as int) =~= seg@);
            if i == 0 {
                assert(before =~= Seq::<Seq<u8>>::empty());
                assert(joined(after) == after[0]);
            }
            i += 1;
        }
        assert(segs(self.parts@).subrange(0, self.parts.len() as int) =~= self@.parts);
        out
    }
}

} // verus!
