//! Control values queued for libcamera cameras.
//!
//! Setting a control never touches a running camera: the value is queued per
//! camera and the camera is marked dirty; the streaming side takes the dirty
//! values and applies them between requests, gate properties (`*-mode`,
//! `*-enable`) first. Listed current values prefer a queued value over the
//! default.
use vstd::prelude::*;
use crate::controls::{
    analogue_gain_mode_nick_spec, companion_mode_spec, control_default, default_of,
    ipa_overlay_spec, is_mode_like, with_value, Control, ControlType,
};
use crate::text::{chars_of, str_eq};

verus! {

/// Lexicographic order of character sequences (code point by code point,
/// which is also the byte order of their UTF-8 encodings).
pub open spec fn seq_lt(a: Seq<char>, b: Seq<char>) -> bool
    decreases a.len(),
{
    if a.len() == 0 {
        b.len() > 0
    } else if b.len() == 0 {
        false
    } else if a[0] < b[0] {
        true
    } else if a[0] > b[0] {
        false
    } else {
        seq_lt(a.drop_first(), b.drop_first())
    }
}

pub proof fn lemma_seq_lt_irreflexive(a: Seq<char>)
    ensures
        !seq_lt(a, a),
    decreases a.len(),
{
    if a.len() > 0 {
        lemma_seq_lt_irreflexive(a.drop_first());
    }
}

pub proof fn lemma_seq_lt_transitive(a: Seq<char>, b: Seq<char>, c: Seq<char>)
    requires
        seq_lt(a, b),
        seq_lt(b, c),
    ensures
        seq_lt(a, c),
    decreases a.len(),
{
    if a.len() > 0 && b.len() > 0 && c.len() > 0 {
        if a[0] == b[0] && b[0] == c[0] {
            lemma_seq_lt_transitive(a.drop_first(), b.drop_first(), c.drop_first());
        }
    }
}

pub proof fn lemma_seq_lt_total(a: Seq<char>, b: Seq<char>)
    ensures
        seq_lt(a, b) || seq_lt(b, a) || a == b,
    decreases a.len(),
{
    if a.len() > 0 && b.len() > 0 {
        if a[0] == b[0] {
            lemma_seq_lt_total(a.drop_first(), b.drop_first());
            if a.drop_first() == b.drop_first() {
                assert(a =~= seq![a[0]] + a.drop_first());
                assert(b =~= seq![b[0]] + b.drop_first());
            }
        }
    } else if a.len() == 0 && b.len() == 0 {
        assert(a =~= b);
    }
}

/// Whether `a` orders before `b`.
pub fn str_lt(a: &str, b: &str) -> (r: bool)
    ensures
        r == seq_lt(a@, b@),
{
    let x = chars_of(a);
    let y = chars_of(b);
    let mut i: usize = 0;
    assert(a@.skip(0) =~= a@);
    assert(b@.skip(0) =~= b@);
    while i < x.len() && i < y.len() && x[i] == y[i]
        invariant
            x@ == a@,
            y@ == b@,
            i <= x@.len(),
            i <= y@.len(),
            seq_lt(a@, b@) == seq_lt(a@.skip(i as int), b@.skip(i as int)),
        decreases x@.len() - i,
    {
        proof {
            assert(a@.skip(i as int).drop_first() =~= a@.skip(i + 1));
            assert(b@.skip(i as int).drop_first() =~= b@.skip(i + 1));
        }
        i = i + 1;
    }
    proof {
        if i < x@.len() && i < y@.len() {
            assert(a@.skip(i as int)[0] == x@[i as int]);
            assert(b@.skip(i as int)[0] == y@[i as int]);
        }
    }
    if i == x.len() {
        i < y.len()
    } else if i == y.len() {
        false
    } else {
        x[i] < y[i]
    }
}

/// A property's queued value.
pub struct PendingValue {
    pub property: String,
    pub value: i64,
}

/// Strictly increasing by property, hence no property twice.
pub open spec fn sorted_entries(s: Seq<PendingValue>) -> bool {
    forall|i: int, j: int| 0 <= i < j < s.len() ==> seq_lt(#[trigger] s[i].property@, #[trigger] s[j].property@)
}

pub open spec fn has_entry(s: Seq<PendingValue>, k: Seq<char>) -> bool {
    exists|i: int| 0 <= i < s.len() && (#[trigger] s[i]).property@ == k
}

pub open spec fn entry_index(s: Seq<PendingValue>, k: Seq<char>) -> int {
    choose|i: int| 0 <= i < s.len() && (#[trigger] s[i]).property@ == k
}

pub open spec fn entries_map(s: Seq<PendingValue>) -> Map<Seq<char>, i64> {
    Map::new(|k: Seq<char>| has_entry(s, k), |k: Seq<char>| s[entry_index(s, k)].value)
}

proof fn lemma_entries_map_at(s: Seq<PendingValue>, i: int)
    requires
        sorted_entries(s),
        0 <= i < s.len(),
    ensures
        entries_map(s).contains_key(s[i].property@),
        entries_map(s)[s[i].property@] == s[i].value,
{
    let k = s[i].property@;
    assert(exists|j: int| 0 <= j < s.len() && (#[trigger] s[j]).property@ == k) by {
        assert(s[i].property@ == k);
    }
    let j = entry_index(s, k);
    assert(entries_map(s).dom().contains(k));
    if j != i {
        if j < i {
            assert(seq_lt(s[j].property@, s[i].property@));
        } else {
            assert(seq_lt(s[i].property@, s[j].property@));
        }
        lemma_seq_lt_irreflexive(k);
    }
}

proof fn lemma_entries_map_eq(s: Seq<PendingValue>, m: Map<Seq<char>, i64>)
    requires
        sorted_entries(s),
        forall|i: int|
            0 <= i < s.len() ==> m.contains_key((#[trigger] s[i]).property@) && m[s[i].property@]
                == s[i].value,
        forall|k: Seq<char>| #[trigger] m.contains_key(k) ==> has_entry(s, k),
    ensures
        entries_map(s) == m,
{
    assert forall|k: Seq<char>| #[trigger] entries_map(s).contains_key(k) <==> m.contains_key(k) by {
        if has_entry(s, k) {
            let i = entry_index(s, k);
            assert(m.contains_key(s[i].property@));
        }
    }
    assert forall|k: Seq<char>| #[trigger] entries_map(s).contains_key(k) implies entries_map(s)[k]
        == m[k] by {
        let i = entry_index(s, k);
        lemma_entries_map_at(s, i);
    }
    assert(entries_map(s) =~= m);
}

/// The queued value of `property`, if any.
fn entries_get(values: &Vec<PendingValue>, property: &str) -> (r: Option<i64>)
    requires
        sorted_entries(values@),
    ensures
        r == (if entries_map(values@).contains_key(property@) {
            Some(entries_map(values@)[property@])
        } else {
            None
        }),
{
    let mut i: usize = 0;
    while i < values.len()
        invariant
            sorted_entries(values@),
            i <= values@.len(),
            forall|k: int| 0 <= k < i ==> (#[trigger] values@[k]).property@ != property@,
        decreases values@.len() - i,
    {
        if str_eq(values[i].property.as_str(), property) {
            proof {
                lemma_entries_map_at(values@, i as int);
            }
            return Some(values[i].value);
        }
        i = i + 1;
    }
    proof {
        if has_entry(values@, property@) {
            let j = entry_index(values@, property@);
            assert(values@[j].property@ == property@);
        }
    }
    None
}

/// Queues `value` for `property`, keeping the entries ordered by property.
fn entries_insert(values: &mut Vec<PendingValue>, property: &str, value: i64)
    requires
        sorted_entries(old(values)@),
    ensures
        sorted_entries(final(values)@),
        entries_map(final(values)@) == entries_map(old(values)@).insert(property@, value),
{
    let ghost s = values@;
    let ghost m = entries_map(s).insert(property@, value);
    let mut p: usize = 0;
    while p < values.len() && str_lt(values[p].property.as_str(), property)
        invariant
            values@ == s,
            p <= values@.len(),
            forall|k: int| 0 <= k < p ==> seq_lt((#[trigger] values@[k]).property@, property@),
        decreases values@.len() - p,
    {
        p = p + 1;
    }
    if p < values.len() && str_eq(values[p].property.as_str(), property) {
        values[p].value = value;
        proof {
            assert forall|i: int| 0 <= i < values@.len() implies m.contains_key(
                (#[trigger] values@[i]).property@,
            ) && m[values@[i].property@] == values@[i].value by {
                if i != p {
                    lemma_entries_map_at(s, i);
                    assert(seq_lt(s[i].property@, s[p as int].property@) || seq_lt(
                        s[p as int].property@,
                        s[i].property@,
                    ));
                    if s[i].property@ == property@ {
                        lemma_seq_lt_irreflexive(property@);
                    }
                }
            }
            assert forall|k: Seq<char>| #[trigger] m.contains_key(k) implies has_entry(values@, k) by {
                if k == property@ {
                    assert(values@[p as int].property@ == k);
                } else {
                    let j = entry_index(s, k);
                    assert(values@[j].property@ == k);
                }
            }
            assert(sorted_entries(values@)) by {
                assert forall|i: int, j: int| 0 <= i < j < values@.len() implies seq_lt(
                    #[trigger] values@[i].property@,
                    #[trigger] values@[j].property@,
                ) by {
                    assert(values@[i].property@ == s[i].property@);
                    assert(values@[j].property@ == s[j].property@);
                }
            }
            lemma_entries_map_eq(values@, m);
        }
    } else {
        let entry = PendingValue { property: property.to_owned(), value };
        values.insert(p, entry);
        proof {
            let t = values@;
            assert(t == s.insert(p as int, entry));
            if p < s.len() {
                lemma_seq_lt_total(s[p as int].property@, property@);
            }
            assert forall|i: int| 0 <= i < t.len() implies m.contains_key((#[trigger] t[i]).property@)
                && m[t[i].property@] == t[i].value by {
                if i != p {
                    let j = if i < p { i } else { i - 1 };
                    assert(t[i] == s[j]);
                    lemma_entries_map_at(s, j);
                    if j < p {
                        assert(seq_lt(s[j].property@, property@));
                    } else {
                        if j > p {
                            lemma_seq_lt_transitive(property@, s[p as int].property@, s[j].property@);
                        }
                    }
                    if s[j].property@ == property@ {
                        lemma_seq_lt_irreflexive(property@);
                    }
                }
            }
            assert forall|k: Seq<char>| #[trigger] m.contains_key(k) implies has_entry(t, k) by {
                if k == property@ {
                    assert(t[p as int].property@ == k);
                } else {
                    let j = entry_index(s, k);
                    if j < p {
                        assert(t[j].property@ == k);
                    } else {
                        assert(t[j + 1].property@ == k);
                    }
                }
            }
            assert forall|i: int, j: int| 0 <= i < j < t.len() implies seq_lt(
                #[trigger] t[i].property@,
                #[trigger] t[j].property@,
            ) by {
                if i == p {
                    assert(t[j] == s[j - 1]);
                    if j - 1 > p {
                        lemma_seq_lt_transitive(property@, s[p as int].property@, s[j - 1].property@);
                    }
                } else if j == p {
                    assert(t[i] == s[i]);
                } else {
                    let a = if i < p { i } else { i - 1 };
                    let b = if j < p { j } else { j - 1 };
                    assert(t[i] == s[a]);
                    assert(t[j] == s[b]);
                }
            }
            lemma_entries_map_eq(t, m);
        }
    }
}

/// The values queued for one camera.
pub struct CameraPending {
    pub camera: String,
    pub values: Vec<PendingValue>,
}

pub open spec fn camera_index(cameras: Seq<CameraPending>, c: Seq<char>) -> int {
    choose|i: int| 0 <= i < cameras.len() && (#[trigger] cameras[i]).camera@ == c
}

/// Queued values per camera, and the cameras whose values have changed
/// since the streaming side last took them.
pub struct PendingControls {
    cameras: Vec<CameraPending>,
    dirty: Vec<String>,
    any_dirty: bool,
}

/// The model of the queue: the values per camera and property, the dirty
/// cameras, and the flag that some camera is dirty.
pub struct PendingView {
    pub pending: Map<Seq<char>, Map<Seq<char>, i64>>,
    pub dirty: Set<Seq<char>>,
    pub any_dirty: bool,
}

/// Queued values by camera, then by property.
pub type PendingMap = Map<Seq<char>, Map<Seq<char>, i64>>;

/// The values queued for `camera` (none when it has no entry).
pub open spec fn map_pending_of(p: PendingMap, camera: Seq<char>) -> Map<Seq<char>, i64> {
    if p.contains_key(camera) {
        p[camera]
    } else {
        Map::empty()
    }
}

/// `p` with `value` queued for `property` of `camera`.
pub open spec fn store_spec(p: PendingMap, camera: Seq<char>, property: Seq<char>, value: i64) -> PendingMap {
    p.insert(camera, map_pending_of(p, camera).insert(property, value))
}

/// The value queued for `property` of `camera`, if any.
pub open spec fn lookup_spec(p: PendingMap, camera: Seq<char>, property: Seq<char>) -> Option<i64> {
    if map_pending_of(p, camera).contains_key(property) {
        Some(map_pending_of(p, camera)[property])
    } else {
        None
    }
}

/// The queue after the streaming side took the values of `camera`: its dirty
/// mark is gone when it had one, and nothing else changes.
pub open spec fn take_dirty_view(v: PendingView, camera: Seq<char>) -> PendingView {
    if v.dirty.contains(camera) {
        PendingView {
            pending: v.pending,
            dirty: v.dirty.remove(camera),
            any_dirty: !v.dirty.remove(camera).is_empty(),
        }
    } else {
        v
    }
}

/// What taking the values of `camera` hands out: its queued values when it
/// is dirty and has some.
pub open spec fn taken_spec(v: PendingView, camera: Seq<char>) -> Option<Map<Seq<char>, i64>> {
    if v.dirty.contains(camera) && v.pending.contains_key(camera) {
        Some(v.pending[camera])
    } else {
        None
    }
}

impl PendingControls {
    pub closed spec fn wf(&self) -> bool {
        &&& forall|i: int, j: int|
            0 <= i < j < self.cameras@.len() ==> (#[trigger] self.cameras@[i]).camera@
                != (#[trigger] self.cameras@[j]).camera@
        &&& forall|i: int|
            0 <= i < self.cameras@.len() ==> sorted_entries(#[trigger] self.cameras@[i].values@)
        &&& forall|i: int, j: int|
            0 <= i < j < self.dirty@.len() ==> (#[trigger] self.dirty@[i])@ != (
            #[trigger] self.dirty@[j])@
        &&& self.any_dirty == (self.dirty@.len() > 0)
    }

    pub closed spec fn view(&self) -> PendingView {
        PendingView {
            pending: Map::new(
                |c: Seq<char>|
                    exists|i: int| 0 <= i < self.cameras@.len() && (#[trigger] self.cameras@[i]).camera@ == c,
                |c: Seq<char>| entries_map(self.cameras@[camera_index(self.cameras@, c)].values@),
            ),
            dirty: Set::new(
                |c: Seq<char>| exists|i: int| 0 <= i < self.dirty@.len() && (#[trigger] self.dirty@[i])@ == c,
            ),
            any_dirty: self.any_dirty,
        }
    }

    pub fn new() -> (r: PendingControls)
        ensures
            r.wf(),
            r.view().pending == Map::<Seq<char>, Map<Seq<char>, i64>>::empty(),
            r.view().dirty == Set::<Seq<char>>::empty(),
            !r.view().any_dirty,
    {
        let r = PendingControls { cameras: Vec::new(), dirty: Vec::new(), any_dirty: false };
        assert(r.view().pending =~= Map::<Seq<char>, Map<Seq<char>, i64>>::empty());
        assert(r.view().dirty =~= Set::<Seq<char>>::empty());
        r
    }

    fn find_camera(&self, camera: &str) -> (r: Option<usize>)
        requires
            self.wf(),
        ensures
            match r {
                Some(i) => i < self.cameras@.len() && self.cameras@[i as int].camera@ == camera@
                    && self.view().pending.contains_key(camera@) && self.view().pending[camera@]
                    == entries_map(self.cameras@[i as int].values@),
                None => !self.view().pending.contains_key(camera@),
            },
    {
        let mut i: usize = 0;
        while i < self.cameras.len()
            invariant
                self.wf(),
                i <= self.cameras@.len(),
                forall|k: int| 0 <= k < i ==> (#[trigger] self.cameras@[k]).camera@ != camera@,
            decreases self.cameras@.len() - i,
        {
            if str_eq(self.cameras[i].camera.as_str(), camera) {
                proof {
                    assert(self.view().pending.contains_key(camera@));
                    let j = camera_index(self.cameras@, camera@);
                    assert(j == i);
                }
                return Some(i);
            }
            i = i + 1;
        }
        None
    }

    /// The value queued for `property` of `camera`, if any.
    pub fn pending_value(&self, camera: &str, property: &str) -> (r: Option<i64>)
        requires
            self.wf(),
        ensures
            r == lookup_spec(self.view().pending, camera@, property@),
    {
        match self.find_camera(camera) {
            Some(i) => entries_get(&self.cameras[i].values, property),
            None => None,
        }
    }

    /// Queues `value` for `property` of `camera`, replacing any value queued
    /// before.
    pub fn store_pending(&mut self, camera: &str, property: &str, value: i64)
        requires
            old(self).wf(),
        ensures
            final(self).wf(),
            final(self).view().pending == store_spec(old(self).view().pending, camera@, property@, value),
            final(self).view().dirty == old(self).view().dirty,
            final(self).view().any_dirty == old(self).view().any_dirty,
    {
        let ghost old_view = self.view();
        let ghost old_cameras = self.cameras@;
        match self.find_camera(camera) {
            Some(i) => {
                let mut values: Vec<PendingValue> = Vec::new();
                std::mem::swap(&mut values, &mut self.cameras[i].values);
                entries_insert(&mut values, property, value);
                let ghost new_values = values@;
                std::mem::swap(&mut values, &mut self.cameras[i].values);
                proof {
                    assert(self.cameras@[i as int].values@ == new_values);
                    assert(self.cameras@[i as int].camera@ == camera@);
                    assert forall|k: int| 0 <= k < self.cameras@.len() && k != i implies #[trigger] self.cameras@[k]
                        == old_cameras[k] by {}
                    assert(self.wf());
                    let target = old_view.pending.insert(
                        camera@,
                        map_pending_of(old_view.pending, camera@).insert(property@, value),
                    );
                    assert forall|c: Seq<char>| #[trigger] self.view().pending.contains_key(c) <==> target.contains_key(c) by {
                        if target.contains_key(c) && c != camera@ {
                            let j = camera_index(old_cameras, c);
                            assert(self.cameras@[j].camera@ == c);
                        }
                        if self.view().pending.contains_key(c) {
                            let j = camera_index(self.cameras@, c);
                            assert(old_cameras[j].camera@ == c);
                        }
                    }
                    assert forall|c: Seq<char>| #[trigger] self.view().pending.contains_key(c) implies self.view().pending[c]
                        == target[c] by {
                        let j = camera_index(self.cameras@, c);
                        if c == camera@ {
                            assert(j == i);
                        } else {
                            let j0 = camera_index(old_cameras, c);
                            assert(old_cameras[j].camera@ == c);
                            assert(j0 == j);
                        }
                    }
                    assert(self.view().pending =~= target);
                    assert(self.view().dirty =~= old_view.dirty);
                }
            },
            None => {
                let mut values: Vec<PendingValue> = Vec::new();
                entries_insert(&mut values, property, value);
                proof {
                    assert(entries_map(Seq::<PendingValue>::empty()) =~= Map::<Seq<char>, i64>::empty());
                }
                let entry = CameraPending { camera: camera.to_owned(), values };
                self.cameras.push(entry);
                proof {
                    let n = old_cameras.len() as int;
                    assert(self.cameras@[n] == entry);
                    assert forall|k: int| 0 <= k < n implies #[trigger] self.cameras@[k] == old_cameras[k] by {}
                    assert(self.wf());
                    let target = old_view.pending.insert(
                        camera@,
                        map_pending_of(old_view.pending, camera@).insert(property@, value),
                    );
                    assert forall|c: Seq<char>| #[trigger] self.view().pending.contains_key(c) <==> target.contains_key(c) by {
                        if target.contains_key(c) && c != camera@ {
                            let j = camera_index(old_cameras, c);
                            assert(self.cameras@[j].camera@ == c);
                        }
                        if c == camera@ {
                            assert(self.cameras@[n].camera@ == c);
                        }
                        if self.view().pending.contains_key(c) && c != camera@ {
                            let j = camera_index(self.cameras@, c);
                            assert(old_cameras[j].camera@ == c);
                        }
                    }
                    assert forall|c: Seq<char>| #[trigger] self.view().pending.contains_key(c) implies self.view().pending[c]
                        == target[c] by {
                        let j = camera_index(self.cameras@, c);
                        if c == camera@ {
                            assert(j == n);
                        } else {
                            let j0 = camera_index(old_cameras, c);
                            assert(old_cameras[j].camera@ == c);
                            assert(j0 == j);
                        }
                    }
                    assert(self.view().pending =~= target);
                    assert(self.view().dirty =~= old_view.dirty);
                }
            },
        }
    }

    /// The flag that some camera is dirty is set exactly when one is.
    pub proof fn lemma_any_dirty(&self)
        requires
            self.wf(),
        ensures
            self.view().any_dirty == !self.view().dirty.is_empty(),
    {
        if self.dirty@.len() > 0 {
            assert(self.view().dirty.contains(self.dirty@[0]@));
        } else {
            assert(self.view().dirty =~= Set::<Seq<char>>::empty());
        }
    }

    /// Whether some camera is dirty.
    pub fn any_dirty(&self) -> (r: bool)
        ensures
            r == self.view().any_dirty,
    {
        self.any_dirty
    }

    fn find_dirty(&self, camera: &str) -> (r: Option<usize>)
        requires
            self.wf(),
        ensures
            match r {
                Some(i) => i < self.dirty@.len() && self.dirty@[i as int]@ == camera@,
                None => !self.view().dirty.contains(camera@),
            },
    {
        let mut i: usize = 0;
        while i < self.dirty.len()
            invariant
                i <= self.dirty@.len(),
                forall|k: int| 0 <= k < i ==> (#[trigger] self.dirty@[k])@ != camera@,
            decreases self.dirty@.len() - i,
        {
            if str_eq(self.dirty[i].as_str(), camera) {
                return Some(i);
            }
            i = i + 1;
        }
        None
    }

    /// Marks `camera` dirty.
    pub fn mark_dirty(&mut self, camera: &str)
        requires
            old(self).wf(),
        ensures
            final(self).wf(),
            final(self).view().pending == old(self).view().pending,
            final(self).view().dirty == old(self).view().dirty.insert(camera@),
            final(self).view().any_dirty,
    {
        let ghost old_dirty = self.dirty@;
        let ghost old_view = self.view();
        if self.find_dirty(camera).is_none() {
            self.dirty.push(camera.to_owned());
            proof {
                let n = old_dirty.len() as int;
                assert forall|k: int| 0 <= k < n implies #[trigger] self.dirty@[k] == old_dirty[k] by {}
            }
        }
        self.any_dirty = true;
        proof {
            assert forall|c: Seq<char>| #[trigger] self.view().dirty.contains(c) <==> old_view.dirty.insert(camera@).contains(c) by {
                if old_view.dirty.contains(c) {
                    let j = choose|j: int| 0 <= j < old_dirty.len() && (#[trigger] old_dirty[j])@ == c;
                    assert(self.dirty@[j]@ == c);
                }
                if c == camera@ && !old_view.dirty.contains(c) {
                    assert(self.dirty@[old_dirty.len() as int]@ == c);
                }
                if self.view().dirty.contains(c) && c != camera@ {
                    let j = choose|j: int| 0 <= j < self.dirty@.len() && (#[trigger] self.dirty@[j])@ == c;
                    assert(old_dirty[j]@ == c);
                }
            }
            assert(self.view().dirty =~= old_view.dirty.insert(camera@));
            assert(self.view().pending =~= old_view.pending);
        }
    }

    /// Removes `camera` from the dirty set; returns whether it was there.
    fn remove_dirty(&mut self, camera: &str) -> (was: bool)
        requires
            old(self).wf(),
        ensures
            final(self).wf(),
            was == old(self).view().dirty.contains(camera@),
            final(self).view().pending == old(self).view().pending,
            final(self).view().dirty == old(self).view().dirty.remove(camera@),
            final(self).view().any_dirty == !final(self).view().dirty.is_empty(),
    {
        let ghost old_dirty = self.dirty@;
        let ghost old_view = self.view();
        let found = self.find_dirty(camera);
        match found {
            Some(i) => {
                self.dirty.remove(i);
                proof {
                    assert(old_view.dirty.contains(camera@)) by {
                        assert(old_dirty[i as int]@ == camera@);
                    }
                }
            },
            None => {},
        }
        self.any_dirty = self.dirty.len() > 0;
        proof {
            assert forall|c: Seq<char>| #[trigger] self.view().dirty.contains(c) <==> old_view.dirty.remove(camera@).contains(c) by {
                if old_view.dirty.contains(c) && c != camera@ {
                    let j = choose|j: int| 0 <= j < old_dirty.len() && (#[trigger] old_dirty[j])@ == c;
                    match found {
                        Some(i) => {
                            if j < i {
                                assert(self.dirty@[j]@ == c);
                            } else {
                                assert(j != i);
                                assert(self.dirty@[j - 1]@ == c);
                            }
                        },
                        None => {
                            assert(self.dirty@[j]@ == c);
                        },
                    }
                }
                if self.view().dirty.contains(c) {
                    let j = choose|j: int| 0 <= j < self.dirty@.len() && (#[trigger] self.dirty@[j])@ == c;
                    match found {
                        Some(i) => {
                            if j < i {
                                assert(old_dirty[j]@ == c);
                            } else {
                                assert(old_dirty[j + 1]@ == c);
                                assert(j + 1 != i);
                            }
                        },
                        None => {
                            assert(old_dirty[j]@ == c);
                        },
                    }
                }
            }
            assert(self.view().dirty =~= old_view.dirty.remove(camera@));
            assert(self.view().pending =~= old_view.pending);
            if self.dirty@.len() > 0 {
                assert(self.view().dirty.contains(self.dirty@[0]@));
            } else {
                assert(self.view().dirty =~= Set::<Seq<char>>::empty());
            }
        }
        found.is_some()
    }

    /// Removes `camera` from the dirty set; the flag that some camera is dirty
    /// drops when none is left.
    pub fn clear_dirty(&mut self, camera: &str)
        requires
            old(self).wf(),
        ensures
            final(self).wf(),
            final(self).view().pending == old(self).view().pending,
            final(self).view().dirty == old(self).view().dirty.remove(camera@),
            final(self).view().any_dirty == !final(self).view().dirty.is_empty(),
    {
        self.remove_dirty(camera);
    }

    /// A copy of the values queued for `camera`, ordered by property.
    pub fn copy_pending(&self, camera: &str) -> (r: Option<Vec<PendingValue>>)
        requires
            self.wf(),
        ensures
            match r {
                Some(values) => self.view().pending.contains_key(camera@) && sorted_entries(values@)
                    && entries_map(values@) == self.view().pending[camera@],
                None => !self.view().pending.contains_key(camera@),
            },
    {
        match self.find_camera(camera) {
            Some(i) => {
                let src = &self.cameras[i].values;
                let mut out: Vec<PendingValue> = Vec::new();
                let mut k: usize = 0;
                while k < src.len()
                    invariant
                        k <= src@.len(),
                        out@.len() == k,
                        forall|m: int|
                            0 <= m < k ==> (#[trigger] out@[m]).property@ == src@[m].property@
                                && out@[m].value == src@[m].value,
                    decreases src@.len() - k,
                {
                    out.push(PendingValue { property: src[k].property.clone(), value: src[k].value });
                    k = k + 1;
                }
                proof {
                    assert(sorted_entries(src@));
                    assert(sorted_entries(out@)) by {
                        assert forall|a: int, b: int| 0 <= a < b < out@.len() implies seq_lt(
                            #[trigger] out@[a].property@,
                            #[trigger] out@[b].property@,
                        ) by {
                            assert(seq_lt(src@[a].property@, src@[b].property@));
                        }
                    }
                    assert forall|m: int| 0 <= m < out@.len() implies entries_map(src@).contains_key(
                        (#[trigger] out@[m]).property@,
                    ) && entries_map(src@)[out@[m].property@] == out@[m].value by {
                        lemma_entries_map_at(src@, m);
                    }
                    assert forall|key: Seq<char>| #[trigger] entries_map(src@).contains_key(key) implies has_entry(
                        out@,
                        key,
                    ) by {
                        let j = entry_index(src@, key);
                        assert(out@[j].property@ == key);
                    }
                    lemma_entries_map_eq(out@, entries_map(src@));
                }
                Some(out)
            },
            None => None,
        }
    }

    /// Takes the values queued for `camera` if it is dirty, clearing its
    /// dirty mark; `None` when it is not dirty or has nothing queued.
    pub fn take_dirty_pending(&mut self, camera: &str) -> (r: Option<Vec<PendingValue>>)
        requires
            old(self).wf(),
        ensures
            final(self).wf(),
            final(self).view() == take_dirty_view(old(self).view(), camera@),
            match r {
                Some(values) => sorted_entries(values@) && taken_spec(old(self).view(), camera@) == Some(
                    entries_map(values@),
                ),
                None => taken_spec(old(self).view(), camera@) is None,
            },
    {
        if self.find_dirty(camera).is_none() {
            return None;
        }
        self.remove_dirty(camera);
        self.copy_pending(camera)
    }
}


/// A value read back after it was queued is the value queued; every other
/// camera and property reads as before.
pub proof fn law_read_after_store(
    p: PendingMap,
    camera: Seq<char>,
    property: Seq<char>,
    value: i64,
    other_camera: Seq<char>,
    other_property: Seq<char>,
)
    ensures
        lookup_spec(store_spec(p, camera, property, value), camera, property) == Some(value),
        (other_camera, other_property) != (camera, property) ==> lookup_spec(
            store_spec(p, camera, property, value),
            other_camera,
            other_property,
        ) == lookup_spec(p, other_camera, other_property),
{
}

/// Of two values queued for the same property, the later one wins: the
/// queue is as if only the later had been queued.
pub proof fn law_latest_store_wins(p: PendingMap, camera: Seq<char>, property: Seq<char>, first: i64, second: i64)
    ensures
        store_spec(store_spec(p, camera, property, first), camera, property, second) == store_spec(
            p,
            camera,
            property,
            second,
        ),
{
    let once = store_spec(p, camera, property, second);
    let twice = store_spec(store_spec(p, camera, property, first), camera, property, second);
    assert(twice[camera] =~= once[camera]);
    assert(twice =~= once);
}

/// The dirty values of a camera are handed out once: a second take right
/// after the first hands out nothing and changes nothing.
pub proof fn law_take_dirty_once(v: PendingView, camera: Seq<char>)
    ensures
        taken_spec(take_dirty_view(v, camera), camera) is None,
        take_dirty_view(take_dirty_view(v, camera), camera) == take_dirty_view(v, camera),
{
}

} // verus!
