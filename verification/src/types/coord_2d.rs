//! A 2D integer coordinate and a sparse map from coordinates to values that
//! tracks the bounding box of every key ever inserted.

use vstd::map::*;
use vstd::prelude::*;

verus! {

/// The absolute value of an integer.
pub open spec fn abs_spec(x: int) -> int {
    if x < 0 {
        -x
    } else {
        x
    }
}

/// A coordinate on an integer grid. The y axis grows downwards: `up` makes y
/// smaller, `down` makes it larger.
#[derive(PartialEq, Eq, Structural, Hash, Clone, Copy, Debug)]
pub struct Coord2d {
    pub x: i64,
    pub y: i64,
}

impl Coord2d {
    /// Componentwise sum of two coordinates.
    pub fn add(&self, amount: &Coord2d) -> (r: Coord2d)
        requires
            i64::MIN <= self.x + amount.x <= i64::MAX,
            i64::MIN <= self.y + amount.y <= i64::MAX,
        ensures
            r.x == self.x + amount.x,
            r.y == self.y + amount.y,
    {
        Coord2d { x: self.x + amount.x, y: self.y + amount.y }
    }

    /// One step up.
    pub fn up(&self) -> (r: Coord2d)
        requires
            i64::MIN <= self.y - 1,
        ensures
            r.x == self.x,
            r.y == self.y - 1,
    {
        self.add(&Coord2d { x: 0, y: -1 })
    }

    /// One step right.
    pub fn right(&self) -> (r: Coord2d)
        requires
            self.x + 1 <= i64::MAX,
        ensures
            r.x == self.x + 1,
            r.y == self.y,
    {
        self.add(&Coord2d { x: 1, y: 0 })
    }

    /// One step down.
    pub fn down(&self) -> (r: Coord2d)
        requires
            self.y + 1 <= i64::MAX,
        ensures
            r.x == self.x,
            r.y == self.y + 1,
    {
        self.add(&Coord2d { x: 0, y: 1 })
    }

    /// One step left.
    pub fn left(&self) -> (r: Coord2d)
        requires
            i64::MIN <= self.x - 1,
        ensures
            r.x == self.x - 1,
            r.y == self.y,
    {
        self.add(&Coord2d { x: -1, y: 0 })
    }

    /// `amount` steps up.
    pub fn up_n(&self, amount: i64) -> (r: Coord2d)
        requires
            i64::MIN <= self.y - amount <= i64::MAX,
        ensures
            r.x == self.x,
            r.y == self.y - amount,
    {
        Coord2d { x: self.x, y: self.y - amount }
    }

    /// `amount` steps right.
    pub fn right_n(&self, amount: i64) -> (r: Coord2d)
        requires
            i64::MIN <= self.x + amount <= i64::MAX,
        ensures
            r.x == self.x + amount,
            r.y == self.y,
    {
        Coord2d { x: self.x + amount, y: self.y }
    }

    /// `amount` steps down.
    pub fn down_n(&self, amount: i64) -> (r: Coord2d)
        requires
            i64::MIN <= self.y + amount <= i64::MAX,
        ensures
            r.x == self.x,
            r.y == self.y + amount,
    {
        Coord2d { x: self.x, y: self.y + amount }
    }

    /// `amount` steps left.
    pub fn left_n(&self, amount: i64) -> (r: Coord2d)
        requires
            i64::MIN <= self.x - amount <= i64::MAX,
        ensures
            r.x == self.x - amount,
            r.y == self.y,
    {
        Coord2d { x: self.x - amount, y: self.y }
    }

    /// The Manhattan (taxicab) distance between two coordinates.
    pub fn manhattan_dist(&self, other: &Coord2d) -> (r: i64)
        requires
            abs_spec(self.x - other.x) + abs_spec(self.y - other.y) <= i64::MAX,
        ensures
            r == abs_spec(self.x - other.x) + abs_spec(self.y - other.y),
    {
        let dx = if self.x >= other.x {
            self.x - other.x
        } else {
            other.x - self.x
        };
        let dy = if self.y >= other.y {
            self.y - other.y
        } else {
            other.y - self.y
        };
        dx + dy
    }
}

/// No two entries of the association sequence carry the same key.
pub open spec fn keys_distinct<T>(s: Seq<(Coord2d, T)>) -> bool {
    forall|i: int, j: int|
        0 <= i < j < s.len() ==> (#[trigger] s[i]).0 != (#[trigger] s[j]).0
}

/// Some entry of the association sequence carries this key.
pub open spec fn seq_has_key<T>(s: Seq<(Coord2d, T)>, k: Coord2d) -> bool {
    exists|i: int| 0 <= i < s.len() && (#[trigger] s[i]).0 == k
}

/// The map an association sequence denotes; a later entry wins over an
/// earlier one with the same key.
pub open spec fn map_of<T>(s: Seq<(Coord2d, T)>) -> Map<Coord2d, T>
    decreases s.len(),
{
    if s.len() == 0 {
        Map::empty()
    } else {
        map_of(s.drop_last()).insert(s.last().0, s.last().1)
    }
}

/// The map denoted by an association sequence contains exactly the keys of
/// its entries, and an entry whose key appears in no later entry gives that
/// key's value.
pub proof fn lemma_map_of_props<T>(s: Seq<(Coord2d, T)>)
    ensures
        forall|k: Coord2d| #[trigger] map_of(s).contains_key(k) <==> seq_has_key(s, k),
        forall|i: int|
            (0 <= i < s.len() && (forall|j: int| i < j < s.len() ==> (#[trigger] s[j]).0 != s[i].0))
                ==> map_of(s)[(#[trigger] s[i]).0] == s[i].1,
    decreases s.len(),
{
    if s.len() == 0 {
        assert forall|k: Coord2d| #[trigger] map_of(s).contains_key(k) <==> seq_has_key(s, k) by {
            assert(!map_of(s).contains_key(k));
        }
    } else {
        let dl = s.drop_last();
        let last = s.last();
        lemma_map_of_props(dl);
        assert(map_of(s) == map_of(dl).insert(last.0, last.1));
        assert forall|k: Coord2d| #[trigger] map_of(s).contains_key(k) <==> seq_has_key(s, k) by {
            if map_of(s).contains_key(k) {
                if k == last.0 {
                    assert((#[trigger] s[s.len() - 1]).0 == k);
                } else {
                    assert(map_of(dl).contains_key(k));
                    let i = choose|i: int| 0 <= i < dl.len() && (#[trigger] dl[i]).0 == k;
                    assert((#[trigger] s[i]).0 == k);
                }
            }
            if seq_has_key(s, k) {
                let i = choose|i: int| 0 <= i < s.len() && (#[trigger] s[i]).0 == k;
                if i == s.len() - 1 {
                    assert(map_of(s).contains_key(k));
                } else {
                    assert((#[trigger] dl[i]).0 == k);
                    assert(map_of(dl).contains_key(k));
                }
            }
        }
        assert forall|i: int|
            (0 <= i < s.len() && (forall|j: int| i < j < s.len() ==> (#[trigger] s[j]).0 != s[i].0))
                implies map_of(s)[(#[trigger] s[i]).0] == s[i].1 by {
            if i == s.len() - 1 {
                assert(map_of(s)[last.0] == last.1);
            } else {
                assert(s[s.len() - 1].0 != s[i].0);
                assert(dl[i] == s[i]);
                assert(forall|j: int| i < j < dl.len() ==> (#[trigger] dl[j]).0 != dl[i].0);
                assert(map_of(dl)[dl[i].0] == dl[i].1);
            }
        }
    }
}

/// Removing the entry at a key's index takes exactly that key out of the
/// denoted map and keeps the remaining keys distinct.
pub proof fn lemma_remove_key_effect<T>(s: Seq<(Coord2d, T)>, i: int)
    requires
        keys_distinct(s),
        0 <= i < s.len(),
    ensures
        keys_distinct(s.remove(i)),
        !seq_has_key(s.remove(i), s[i].0),
        map_of(s.remove(i)) == map_of(s).remove(s[i].0),
    decreases s.len(),
{
    let t = s.remove(i);
    assert forall|a: int, b: int| 0 <= a < b < t.len() implies (#[trigger] t[a]).0 != (
    #[trigger] t[b]).0 by {
        assert(t[a] == (if a < i {
            s[a]
        } else {
            s[a + 1]
        }));
        assert(t[b] == (if b < i {
            s[b]
        } else {
            s[b + 1]
        }));
    }
    assert forall|a: int| 0 <= a < t.len() implies (#[trigger] t[a]).0 != s[i].0 by {
        assert(t[a] == (if a < i {
            s[a]
        } else {
            s[a + 1]
        }));
    }
    if i == s.len() - 1 {
        assert(t =~= s.drop_last());
        lemma_map_of_props(s.drop_last());
        assert_maps_equal!(map_of(s.drop_last()), map_of(s).remove(s[i].0), k => {
            if k != s[i].0 {
                if map_of(s.drop_last()).contains_key(k) {
                    assert(map_of(s).remove(s[i].0).contains_key(k));
                }
                if map_of(s).remove(s[i].0).contains_key(k) {
                    assert(map_of(s.drop_last()).contains_key(k));
                }
            } else {
                if map_of(s.drop_last()).contains_key(k) {
                    assert(seq_has_key(s.drop_last(), k));
                    let a = choose|a: int|
                        0 <= a < s.drop_last().len() && (#[trigger] s.drop_last()[a]).0 == k;
                    assert(s[a].0 == s[s.len() - 1].0);
                    assert(false);
                }
            }
        });
    } else {
        let dl = s.drop_last();
        let last = s.last();
        assert(keys_distinct(dl));
        assert(0 <= i < dl.len());
        lemma_remove_key_effect(dl, i);
        assert(t =~= dl.remove(i).push(last));
        assert(dl.remove(i).push(last).drop_last() =~= dl.remove(i));
        assert(map_of(t) == map_of(dl.remove(i)).insert(last.0, last.1));
        assert(map_of(s) == map_of(dl).insert(last.0, last.1));
        assert(s[i].0 != last.0);
        assert_maps_equal!(map_of(dl).remove(s[i].0).insert(last.0, last.1),
            map_of(dl).insert(last.0, last.1).remove(s[i].0));
    }
}

/// A sparse map from coordinates to values. Besides the entries it keeps the
/// smallest and largest x and y of every key ever inserted — a bounding box
/// that removals do not shrink.
pub struct Coord2dMap<T> {
    entries: Vec<(Coord2d, T)>,
    min_x: i64,
    min_y: i64,
    max_x: i64,
    max_y: i64,
}

impl<T> View for Coord2dMap<T> {
    type V = Map<Coord2d, T>;

    closed spec fn view(&self) -> Map<Coord2d, T> {
        map_of(self.entries@)
    }
}

impl<T> Coord2dMap<T> {
    /// The entries in insertion-history order.
    pub closed spec fn entries_view(&self) -> Seq<(Coord2d, T)> {
        self.entries@
    }

    pub closed spec fn spec_min_x(&self) -> i64 {
        self.min_x
    }

    pub closed spec fn spec_min_y(&self) -> i64 {
        self.min_y
    }

    pub closed spec fn spec_max_x(&self) -> i64 {
        self.max_x
    }

    pub closed spec fn spec_max_y(&self) -> i64 {
        self.max_y
    }

    /// Keys are unique, every key lies inside the recorded bounding box, and
    /// whenever both x bounds (or both y bounds) have left their initial
    /// sentinels they are ordered.
    pub closed spec fn wf(&self) -> bool {
        &&& keys_distinct(self.entries@)
        &&& forall|i: int|
            0 <= i < self.entries@.len() ==> self.min_x <= (#[trigger] self.entries@[i]).0.x
                <= self.max_x && self.min_y <= self.entries@[i].0.y <= self.max_y
        &&& (self.min_x < i64::MAX && self.max_x > i64::MIN ==> self.min_x <= self.max_x)
        &&& (self.min_y < i64::MAX && self.max_y > i64::MIN ==> self.min_y <= self.max_y)
    }

    /// An empty map, with the bounding box at its sentinel extremes.
    pub fn new() -> (r: Self)
        ensures
            r.wf(),
            r@ == Map::<Coord2d, T>::empty(),
            r.spec_min_x() == i64::MAX,
            r.spec_min_y() == i64::MAX,
            r.spec_max_x() == i64::MIN,
            r.spec_max_y() == i64::MIN,
    {
        let r = Coord2dMap {
            entries: Vec::new(),
            min_x: i64::MAX,
            min_y: i64::MAX,
            max_x: i64::MIN,
            max_y: i64::MIN,
        };
        proof {
            assert(r@ =~= Map::<Coord2d, T>::empty());
        }
        r
    }

    /// The index of the entry carrying this key, if any.
    fn find_key(&self, key: &Coord2d) -> (r: Option<usize>)
        ensures
            match r {
                Some(i) => i < self.entries_view().len() && self.entries_view()[i as int].0 == *key,
                None => !seq_has_key(self.entries_view(), *key),
            },
    {
        let mut i: usize = 0;
        while i < self.entries.len()
            invariant
                i <= self.entries@.len(),
                forall|j: int| 0 <= j < i ==> (#[trigger] self.entries@[j]).0 != *key,
            decreases self.entries@.len() - i,
        {
            if self.entries[i].0 == *key {
                return Some(i);
            }
            i += 1;
        }
        None
    }

    /// Inserts a value under a key, growing the bounding box to cover the
    /// key, and returns the value the key held before, if any.
    pub fn insert(&mut self, key: Coord2d, value: T) -> (r: Option<T>)
        requires
            old(self).wf(),
        ensures
            final(self).wf(),
            final(self)@ == old(self)@.insert(key, value),
            old(self)@.contains_key(key) ==> r == Some(old(self)@[key]),
            !old(self)@.contains_key(key) ==> r is None,
            final(self).spec_min_x() == (if key.x < old(self).spec_min_x() {
                key.x
            } else {
                old(self).spec_min_x()
            }),
            final(self).spec_max_x() == (if key.x > old(self).spec_max_x() {
                key.x
            } else {
                old(self).spec_max_x()
            }),
            final(self).spec_min_y() == (if key.y < old(self).spec_min_y() {
                key.y
            } else {
                old(self).spec_min_y()
            }),
            final(self).spec_max_y() == (if key.y > old(self).spec_max_y() {
                key.y
            } else {
                old(self).spec_max_y()
            }),
    {
        if key.x > self.max_x {
            self.max_x = key.x;
        }
        if key.x < self.min_x {
            self.min_x = key.x;
        }
        if key.y > self.max_y {
            self.max_y = key.y;
        }
        if key.y < self.min_y {
            self.min_y = key.y;
        }
        proof {
            lemma_map_of_props(self.entries@);
        }
        match self.find_key(&key) {
            Some(i) => {
                proof {
                    lemma_remove_key_effect(self.entries@, i as int);
                    assert forall|j: int| i < j < self.entries@.len() implies (
                    #[trigger] self.entries@[j]).0 != self.entries@[i as int].0 by {}
                }
                let old_pair = self.entries.remove(i);
                let ghost removed = self.entries@;
                self.entries.push((key, value));
                proof {
                    assert(self.entries@.drop_last() =~= removed);
                    assert(map_of(self.entries@) == map_of(removed).insert(key, value));
                    assert_maps_equal!(map_of(old(self).entries@).remove(key).insert(key, value),
                        map_of(old(self).entries@).insert(key, value));
                    assert forall|a: int, b: int|
                        0 <= a < b < self.entries@.len() implies (#[trigger] self.entries@[a]).0
                        != (#[trigger] self.entries@[b]).0 by {
                        if b < self.entries@.len() - 1 {
                            assert(removed[a].0 != removed[b].0);
                        } else {
                            assert(!seq_has_key(removed, key));
                            assert(self.entries@[a] == removed[a]);
                        }
                    }
                }
                Some(old_pair.1)
            },
            None => {
                let ghost before = self.entries@;
                self.entries.push((key, value));
                proof {
                    assert(self.entries@.drop_last() =~= before);
                    assert(map_of(self.entries@) == map_of(before).insert(key, value));
                    assert forall|a: int, b: int|
                        0 <= a < b < self.entries@.len() implies (#[trigger] self.entries@[a]).0
                        != (#[trigger] self.entries@[b]).0 by {
                        if b < self.entries@.len() - 1 {
                            assert(before[a].0 != before[b].0);
                        } else {
                            assert(self.entries@[a] == before[a]);
                        }
                    }
                }
                None
            },
        }
    }

    /// A borrow of the entries, oldest first; each entry is a key of the map
    /// with its value, and every key of the map appears.
    pub fn iter(&self) -> (r: &Vec<(Coord2d, T)>)
        requires
            self.wf(),
        ensures
            r@ == self.entries_view(),
            keys_distinct(r@),
            forall|i: int|
                0 <= i < r@.len() ==> self@.contains_key((#[trigger] r@[i]).0) && self@[r@[i].0]
                    == r@[i].1,
            forall|k: Coord2d| #[trigger] self@.contains_key(k) ==> seq_has_key(r@, k),
    {
        proof {
            lemma_map_of_props(self.entries@);
            assert forall|i: int|
                0 <= i < self.entries@.len() implies self@.contains_key(
                (#[trigger] self.entries@[i]).0,
            ) && self@[self.entries@[i].0] == self.entries@[i].1 by {
                assert forall|j: int|
                    i < j < self.entries@.len() implies (#[trigger] self.entries@[j]).0
                    != self.entries@[i].0 by {}
            }
        }
        &self.entries
    }

    /// The value under a key, if the key is present.
    pub fn get(&self, key: &Coord2d) -> (r: Option<&T>)
        requires
            self.wf(),
        ensures
            match r {
                Some(v) => self@.contains_key(*key) && *v == self@[*key],
                None => !self@.contains_key(*key),
            },
    {
        proof {
            lemma_map_of_props(self.entries@);
        }
        match self.find_key(key) {
            Some(i) => {
                proof {
                    assert forall|j: int|
                        i < j < self.entries@.len() implies (#[trigger] self.entries@[j]).0
                        != self.entries@[i as int].0 by {}
                }
                Some(&self.entries[i].1)
            },
            None => None,
        }
    }

    /// Whether a key is present.
    pub fn contains_key(&self, key: &Coord2d) -> (r: bool)
        requires
            self.wf(),
        ensures
            r == self@.contains_key(*key),
    {
        proof {
            lemma_map_of_props(self.entries@);
        }
        match self.find_key(key) {
            Some(_) => true,
            None => false,
        }
    }

    /// Removes a key and returns its value, if it was present. The bounding
    /// box keeps its extent.
    pub fn remove(&mut self, key: &Coord2d) -> (r: Option<T>)
        requires
            old(self).wf(),
        ensures
            final(self).wf(),
            final(self)@ == old(self)@.remove(*key),
            old(self)@.contains_key(*key) ==> r == Some(old(self)@[*key]),
            !old(self)@.contains_key(*key) ==> r is None,
            final(self).spec_min_x() == old(self).spec_min_x(),
            final(self).spec_max_x() == old(self).spec_max_x(),
            final(self).spec_min_y() == old(self).spec_min_y(),
            final(self).spec_max_y() == old(self).spec_max_y(),
    {
        proof {
            lemma_map_of_props(self.entries@);
        }
        match self.find_key(key) {
            Some(i) => {
                proof {
                    lemma_remove_key_effect(self.entries@, i as int);
                    assert forall|j: int|
                        i < j < self.entries@.len() implies (#[trigger] self.entries@[j]).0
                        != self.entries@[i as int].0 by {}
                }
                let ghost before = self.entries@;
                let pair = self.entries.remove(i);
                proof {
                    assert forall|j: int|
                        0 <= j < self.entries@.len() implies self.min_x <= (
                    #[trigger] self.entries@[j]).0.x <= self.max_x && self.min_y
                        <= self.entries@[j].0.y <= self.max_y by {
                        assert(self.entries@[j] == (if j < i as int {
                            before[j]
                        } else {
                            before[j + 1]
                        }));
                    }
                }
                Some(pair.1)
            },
            None => {
                proof {
                    assert(old(self)@ =~= old(self)@.remove(*key));
                }
                None
            },
        }
    }

    /// The width of the bounding box of every key ever inserted, or zero
    /// while no key has moved both x bounds off their sentinels.
    pub fn width(&self) -> (r: i64)
        requires
            self.wf(),
            self.spec_min_x() < i64::MAX && self.spec_max_x() > i64::MIN ==> self.spec_max_x()
                - self.spec_min_x() + 1 <= i64::MAX,
        ensures
            r == (if self.spec_min_x() < i64::MAX && self.spec_max_x() > i64::MIN {
                self.spec_max_x() - self.spec_min_x() + 1
            } else {
                0
            }),
    {
        if self.min_x < i64::MAX && self.max_x > i64::MIN {
            self.max_x - self.min_x + 1
        } else {
            0
        }
    }

    /// The height of the bounding box of every key ever inserted, or zero
    /// while no key has moved both y bounds off their sentinels.
    pub fn height(&self) -> (r: i64)
        requires
            self.wf(),
            self.spec_min_y() < i64::MAX && self.spec_max_y() > i64::MIN ==> self.spec_max_y()
                - self.spec_min_y() + 1 <= i64::MAX,
        ensures
            r == (if self.spec_min_y() < i64::MAX && self.spec_max_y() > i64::MIN {
                self.spec_max_y() - self.spec_min_y() + 1
            } else {
                0
            }),
    {
        if self.min_y < i64::MAX && self.max_y > i64::MIN {
            self.max_y - self.min_y + 1
        } else {
            0
        }
    }

    /// The largest x of any key ever inserted, or its sentinel.
    pub fn max_x(&self) -> (r: i64)
        ensures
            r == self.spec_max_x(),
    {
        self.max_x
    }

    /// The smallest x of any key ever inserted, or its sentinel.
    pub fn min_x(&self) -> (r: i64)
        ensures
            r == self.spec_min_x(),
    {
        self.min_x
    }

    /// The largest y of any key ever inserted, or its sentinel.
    pub fn max_y(&self) -> (r: i64)
        ensures
            r == self.spec_max_y(),
    {
        self.max_y
    }

    /// The smallest y of any key ever inserted, or its sentinel.
    pub fn min_y(&self) -> (r: i64)
        ensures
            r == self.spec_min_y(),
    {
        self.min_y
    }
}

} // verus!
