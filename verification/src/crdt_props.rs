use vstd::prelude::*;
use vstd::utf8::encode_utf8;

verus! {

/// A prop placed in a frame. Its position is three `f32`s kept as bit patterns.
#[derive(Debug)]
pub struct CrdtProp {
    pub id: String,
    pub kind: String,
    pub x_bits: u32,
    pub y_bits: u32,
    pub z_bits: u32,
    pub author_fwau: u128,
    pub placed_tick: u64,
}

pub struct PropView {
    pub id: Seq<char>,
    pub kind: Seq<char>,
    pub x_bits: u32,
    pub y_bits: u32,
    pub z_bits: u32,
    pub author_fwau: u128,
    pub placed_tick: u64,
}

impl View for CrdtProp {
    type V = PropView;

    open spec fn view(&self) -> PropView {
        PropView {
            id: self.id@,
            kind: self.kind@,
            x_bits: self.x_bits,
            y_bits: self.y_bits,
            z_bits: self.z_bits,
            author_fwau: self.author_fwau,
            placed_tick: self.placed_tick,
        }
    }
}

impl Clone for CrdtProp {
    fn clone(&self) -> (r: Self)
        ensures
            r@ == self@,
    {
        CrdtProp {
            id: self.id.clone(),
            kind: self.kind.clone(),
            x_bits: self.x_bits,
            y_bits: self.y_bits,
            z_bits: self.z_bits,
            author_fwau: self.author_fwau,
            placed_tick: self.placed_tick,
        }
    }
}

/// Byte-wise lexicographic order, the order of Rust's `str` comparison.
pub open spec fn bytes_lt(a: Seq<u8>, b: Seq<u8>) -> bool {
    exists|i: int|
        0 <= i <= a.len() && i <= b.len() && a.take(i) == b.take(i) && ((i == a.len() && i
            < b.len()) || (i < a.len() && i < b.len() && a[i] < b[i]))
}

/// Order of prop ids: that of their UTF-8 bytes.
pub open spec fn id_lt(a: Seq<char>, b: Seq<char>) -> bool {
    bytes_lt(encode_utf8(a), encode_utf8(b))
}

proof fn lemma_bytes_total(a: Seq<u8>, b: Seq<u8>, j: int)
    requires
        0 <= j <= a.len(),
        j <= b.len(),
        a.take(j) == b.take(j),
        a != b,
    ensures
        bytes_lt(a, b) || bytes_lt(b, a),
    decreases a.len() - j,
{
    if j == a.len() || j == b.len() {
        if j == a.len() && j == b.len() {
            assert(a =~= a.take(j));
            assert(b =~= b.take(j));
        }
        if j == a.len() {
            assert(bytes_lt(a, b));
        } else {
            assert(b.take(j) == a.take(j));
            assert(bytes_lt(b, a));
        }
    } else if a[j] != b[j] {
        if a[j] < b[j] {
            assert(bytes_lt(a, b));
        } else {
            assert(b.take(j) == a.take(j));
            assert(bytes_lt(b, a));
        }
    } else {
        assert(a.take(j + 1) =~= a.take(j).push(a[j]));
        assert(b.take(j + 1) =~= b.take(j).push(b[j]));
        lemma_bytes_total(a, b, j + 1);
    }
}

proof fn lemma_id_total(a: Seq<char>, b: Seq<char>)
    requires
        a != b,
    ensures
        id_lt(a, b) || id_lt(b, a),
{
    vstd::utf8::encode_utf8_decode_utf8(a);
    vstd::utf8::encode_utf8_decode_utf8(b);
    assert(encode_utf8(a) != encode_utf8(b));
    assert(encode_utf8(a).take(0) =~= encode_utf8(b).take(0));
    lemma_bytes_total(encode_utf8(a), encode_utf8(b), 0);
}

fn bytes_less(a: &[u8], b: &[u8]) -> (r: bool)
    ensures
        r == bytes_lt(a@, b@),
{
    let n = a.len();
    let m = b.len();
    let mut i: usize = 0;
    while i < n && i < m && a[i] == b[i]
        invariant
            i <= n,
            i <= m,
            n == a@.len(),
            m == b@.len(),
            a@.take(i as int) == b@.take(i as int),
        decreases n - i,
    {
        proof {
            assert(a@.take(i + 1) =~= a@.take(i as int).push(a@[i as int]));
            assert(b@.take(i + 1) =~= b@.take(i as int).push(b@[i as int]));
        }
        i = i + 1;
    }
    let r = if i == n {
        i < m
    } else if i == m {
        false
    } else {
        a[i] < b[i]
    };
    proof {
        if r {
            assert(bytes_lt(a@, b@));
        } else {
            assert forall|j: int|
                0 <= j <= a@.len() && j <= b@.len() && a@.take(j) == b@.take(j) implies !((j
                    == a@.len() && j < b@.len()) || (j < a@.len() && j < b@.len() && a@[j]
                    < b@[j])) by {
                if j < i {
                    assert(a@.take(i as int)[j] == a@[j]);
                    assert(b@.take(i as int)[j] == b@[j]);
                } else if j > i {
                    assert(a@.take(j)[i as int] == a@[i as int]);
                    assert(b@.take(j)[i as int] == b@[i as int]);
                }
            }
        }
    }
    r
}

fn id_less(a: &String, b: &String) -> (r: bool)
    ensures
        r == id_lt(a@, b@),
{
    let sa = a.as_str();
    let sb = b.as_str();
    bytes_less(sa.as_bytes(), sb.as_bytes())
}

/// Props of a frame as an add-only set: a prop whose id is already present is
/// refused. Props are kept ordered by id.
#[derive(Debug)]
pub struct PropStore {
    props: Vec<CrdtProp>,
}

pub open spec fn prop_views(s: Seq<CrdtProp>) -> Seq<PropView> {
    s.map_values(|p: CrdtProp| p@)
}

/// Ids are ordered strictly from each prop to the next.
pub open spec fn ordered_ids(s: Seq<PropView>) -> bool {
    forall|k: int| 0 <= k < s.len() - 1 ==> id_lt(#[trigger] s[k].id, s[k + 1].id)
}

impl View for PropStore {
    type V = Seq<PropView>;

    closed spec fn view(&self) -> Seq<PropView> {
        prop_views(self.props@)
    }
}

impl PropStore {
    /// No id occurs twice, and ids ascend.
    pub open spec fn wf(&self) -> bool {
        &&& forall|i: int, j: int| 0 <= i < j < self@.len() ==> self@[i].id != self@[j].id
        &&& ordered_ids(self@)
    }

    /// Some prop has id `id`.
    pub open spec fn has_id(&self, id: Seq<char>) -> bool {
        exists|i: int| 0 <= i < self@.len() && #[trigger] self@[i].id == id
    }

    pub fn new() -> (r: Self)
        ensures
            r.wf(),
            r@.len() == 0,
    {
        PropStore { props: Vec::new() }
    }

    /// Adds `prop` unless a prop with its id is present; says whether it was added.
    pub fn add(&mut self, prop: CrdtProp) -> (added: bool)
        requires
            old(self).wf(),
        ensures
            final(self).wf(),
            added == !old(self).has_id(prop@.id),
            !added ==> final(self)@ == old(self)@,
            added ==> final(self)@.to_multiset() == old(self)@.to_multiset().insert(prop@),
            final(self).has_id(prop@.id),
    {
        let ghost pv = prop@;
        let ghost s = self.props@;
        proof {
            assert(self@ == prop_views(s));
        }
        let mut i: usize = 0;
        while i < self.props.len()
            invariant
                i <= s.len(),
                self.props@ == s,
                self.wf(),
                pv == prop@,
                forall|j: int| 0 <= j < i ==> (#[trigger] s[j])@.id != pv.id,
            decreases s.len() - i,
        {
            if self.props[i].id == prop.id {
                proof {
                    assert(self@[i as int] == s[i as int]@);
                    assert(self@[i as int].id == pv.id);
                }
                return false;
            }
            i = i + 1;
        }
        proof {
            assert forall|j: int| 0 <= j < self@.len() implies #[trigger] self@[j].id != pv.id by {
                assert(self@[j] == s[j]@);
            }
        }
        let mut p: usize = 0;
        while p < self.props.len() && id_less(&self.props[p].id, &prop.id)
            invariant
                p <= s.len(),
                self.props@ == s,
                pv == prop@,
                forall|j: int| 0 <= j < p ==> id_lt(#[trigger] s[j]@.id, pv.id),
            decreases s.len() - p,
        {
            p = p + 1;
        }
        proof {
            if p < s.len() {
                lemma_id_total(s[p as int]@.id, pv.id);
            }
        }
        self.props.insert(p, prop);
        proof {
            let t = prop_views(self.props@);
            let old_v = prop_views(s);
            assert(t =~= old_v.insert(p as int, pv));
            assert forall|k: int| 0 <= k < t.len() - 1 implies id_lt(#[trigger] t[k].id, t[k + 1].id) by {
                if k + 1 < p {
                    assert(t[k] == old_v[k] && t[k + 1] == old_v[k + 1]);
                } else if k + 1 == p {
                    assert(t[k] == old_v[k]);
                    assert(t[k].id == s[k]@.id);
                } else if k == p {
                    assert(t[k + 1] == old_v[k]);
                } else {
                    assert(t[k] == old_v[k - 1] && t[k + 1] == old_v[k]);
                }
            }
            assert forall|x: int, y: int| 0 <= x < y < t.len() implies t[x].id != t[y].id by {
                if x == p {
                    assert(t[y] == old_v[y - 1]);
                } else if y == p {
                    assert(t[x] == old_v[x]);
                } else if y < p {
                    assert(t[x] == old_v[x] && t[y] == old_v[y]);
                } else if x < p {
                    assert(t[x] == old_v[x] && t[y] == old_v[y - 1]);
                } else {
                    assert(t[x] == old_v[x - 1] && t[y] == old_v[y - 1]);
                }
            }
            vstd::seq_lib::to_multiset_insert(old_v, p as int, pv);
            assert(t[p as int] == pv);
            assert(self@ == t);
            assert(self@[p as int].id == pv.id);
        }
        true
    }

    /// Every prop, ordered by id.
    pub fn all(&self) -> (r: Vec<CrdtProp>)
        requires
            self.wf(),
        ensures
            prop_views(r@) == self@,
            ordered_ids(prop_views(r@)),
    {
        let mut out: Vec<CrdtProp> = Vec::new();
        let mut i: usize = 0;
        while i < self.props.len()
            invariant
                i <= self.props@.len(),
                prop_views(out@) == prop_views(self.props@.take(i as int)),
            decreases self.props@.len() - i,
        {
            let c = self.props[i].clone();
            let ghost before = out@;
            out.push(c);
            proof {
                assert(prop_views(out@) =~= prop_views(before).push(c@));
                assert(prop_views(self.props@.take(i + 1)) =~= prop_views(self.props@.take(i as int)).push(self.props@[i as int]@));
            }
            i = i + 1;
        }
        proof {
            assert(self.props@.take(self.props@.len() as int) =~= self.props@);
        }
        out
    }

    pub fn len(&self) -> (r: usize)
        ensures
            r == self@.len(),
    {
        self.props.len()
    }
}

/// Adding the same prop twice: the second add is refused and changes nothing. The
/// stores are related as `add` relates them.
pub proof fn lemma_add_twice(s0: PropStore, s1: PropStore, s2: PropStore, p: PropView, a1: bool, a2: bool)
    requires
        s0.wf(),
        a1 == !s0.has_id(p.id),
        s1.has_id(p.id),
        a2 == !s1.has_id(p.id),
        !a2 ==> s2@ == s1@,
    ensures
        !a2,
        s2@ == s1@,
{
}

} // verus!
