//! RFID tags as the reader reports them, their validation, and the map that
//! keeps, per tag id, the reading with the strongest signal.
use vstd::prelude::*;
use crate::text::{int_decimal, nat_decimal, u64_to_decimal, i64_to_decimal, str_equal, hex_upper, bytes_to_hex_upper};
use rand::seq::SliceRandom;
use rand::Rng;

verus! {

/// Strongest signal (dBm) that a reading may report.
pub const MAX_STRENGTH: i8 = 0;

/// Weakest signal (dBm) that a reading may report.
pub const MIN_STRENGTH: i8 = -80;

/// Highest antenna number of the reader.
pub const MAX_ANTENNA: u16 = 3;

/// Lowest antenna number of the reader.
pub const MIN_ANTENNA: u16 = 1;

/// One reading of an RFID token.
#[derive(Debug)]
pub struct Tag {
    pub id: String,
    pub strength: i8,
    pub antenna: u16,
}

/// The mathematical value of a [`Tag`].
pub struct TagView {
    pub id: Seq<char>,
    pub strength: i8,
    pub antenna: u16,
}

impl View for Tag {
    type V = TagView;

    open spec fn view(&self) -> TagView {
        TagView { id: self.id@, strength: self.strength, antenna: self.antenna }
    }
}

impl Clone for Tag {
    fn clone(&self) -> (r: Self)
        ensures
            r == *self,
    {
        Tag { id: self.id.clone(), strength: self.strength, antenna: self.antenna }
    }
}

/// Why a reading was refused.
#[derive(Debug, Clone, Copy, PartialEq, Eq, Structural)]
pub enum TagErrorKind {
    Incomplete,
    IncorrectAntenna,
    IncorrectStrength,
}

/// A refused reading: the reason and the offending value, as text.
#[derive(Debug)]
pub struct TagError {
    pub kind: TagErrorKind,
    value: String,
}

/// The mathematical value of a [`TagError`].
pub struct TagErrorView {
    pub kind: TagErrorKind,
    pub value: Seq<char>,
}

impl View for TagError {
    type V = TagErrorView;

    closed spec fn view(&self) -> TagErrorView {
        TagErrorView { kind: self.kind, value: self.value@ }
    }
}

/// Whether `antenna` is one of the reader's antennas.
pub open spec fn antenna_in_range(antenna: u16) -> bool {
    MIN_ANTENNA <= antenna <= MAX_ANTENNA
}

/// Whether `strength` is a signal strength that a reading may report.
pub open spec fn strength_in_range(strength: i8) -> bool {
    MIN_STRENGTH <= strength <= MAX_STRENGTH
}

/// What validating a reading gives: the antenna is checked first, then the
/// strength; a refusal carries the offending value in decimal.
pub open spec fn build_outcome(id: Seq<char>, antenna: u16, strength: i8) -> Result<
    TagView,
    TagErrorView,
> {
    if !antenna_in_range(antenna) {
        Err(TagErrorView { kind: TagErrorKind::IncorrectAntenna, value: nat_decimal(antenna as nat) })
    } else if !strength_in_range(strength) {
        Err(
            TagErrorView {
                kind: TagErrorKind::IncorrectStrength,
                value: int_decimal(strength as int),
            },
        )
    } else {
        Ok(TagView { id, strength, antenna })
    }
}

/// The mathematical value of a validation result.
pub open spec fn outcome_view(r: Result<Tag, TagError>) -> Result<TagView, TagErrorView> {
    match r {
        Ok(t) => Ok(t@),
        Err(e) => Err(e@),
    }
}

impl TagError {
    /// A refusal of the given kind for the given value.
    pub fn new(kind: TagErrorKind, value: String) -> (r: TagError)
        ensures
            r@ == (TagErrorView { kind, value: value@ }),
    {
        TagError { kind, value }
    }

    /// The offending value, as text.
    pub fn value(&self) -> (r: &str)
        ensures
            r@ == self@.value,
    {
        self.value.as_str()
    }

    /// The message that describes the refusal.
    pub fn to_string(&self) -> (r: String)
        ensures
            r@ == tag_error_message(self@),
    {
        let mut s = String::new();
        match self.kind {
            TagErrorKind::Incomplete => {
                s.append("Line did not have expected parts, we require exactly 3, but found ");
            },
            TagErrorKind::IncorrectAntenna => {
                s.append("Line did not have a correct antenna, value should be between ");
                s.append(u64_to_decimal(MIN_ANTENNA as u64).as_str());
                s.append(" and ");
                s.append(u64_to_decimal(MAX_ANTENNA as u64).as_str());
                s.append(", but was ");
            },
            TagErrorKind::IncorrectStrength => {
                s.append("Line did not have a correct strength, value should be between ");
                s.append(i64_to_decimal(MIN_STRENGTH as i64).as_str());
                s.append(" and ");
                s.append(i64_to_decimal(MAX_STRENGTH as i64).as_str());
                s.append(", but was ");
            },
        }
        s.append(self.value.as_str());
        s.append(".");
        s
    }
}

/// The text that describes a refused reading.
pub open spec fn tag_error_message(e: TagErrorView) -> Seq<char> {
    let head = match e.kind {
        TagErrorKind::Incomplete => "Line did not have expected parts, we require exactly 3, but found "@,
        TagErrorKind::IncorrectAntenna => "Line did not have a correct antenna, value should be between "@
            + nat_decimal(MIN_ANTENNA as nat) + " and "@ + nat_decimal(MAX_ANTENNA as nat)
            + ", but was "@,
        TagErrorKind::IncorrectStrength => "Line did not have a correct strength, value should be between "@
            + int_decimal(MIN_STRENGTH as int) + " and "@ + int_decimal(MAX_STRENGTH as int)
            + ", but was "@,
    };
    head + e.value + "."@
}

impl Tag {
    /// Validates a reading: the antenna must be one of the reader's and the
    /// strength must lie between [`MIN_STRENGTH`] and [`MAX_STRENGTH`].
    pub fn build(id: String, antenna: u16, strength: i8) -> (r: Result<Tag, TagError>)
        ensures
            outcome_view(r) == build_outcome(id@, antenna, strength),
            r matches Ok(t) ==> t.id == id,
    {
        if antenna < MIN_ANTENNA || antenna > MAX_ANTENNA {
            return Err(
                TagError { kind: TagErrorKind::IncorrectAntenna, value: u64_to_decimal(antenna as u64) },
            );
        }
        if strength < MIN_STRENGTH || strength > MAX_STRENGTH {
            return Err(
                TagError {
                    kind: TagErrorKind::IncorrectStrength,
                    value: i64_to_decimal(strength as i64),
                },
            );
        }
        Ok(Tag { id, antenna, strength })
    }
}


/// The values of a sequence of readings.
pub open spec fn views(tags: Seq<Tag>) -> Seq<TagView> {
    tags.map_values(|t: Tag| t@)
}

/// Whether some reading in `s` has the given id.
pub open spec fn has_id(s: Seq<TagView>, id: Seq<char>) -> bool {
    exists|i: int| 0 <= i < s.len() && #[trigger] s[i].id == id
}

/// Whether no two readings in `s` share an id.
pub open spec fn unique_ids(s: Seq<TagView>) -> bool {
    forall|i: int, j: int|
        0 <= i < s.len() && 0 <= j < s.len() && i != j ==> #[trigger] s[i].id != #[trigger] s[j].id
}

/// Whether the reading at index `i` of `s` is the first of the strongest
/// readings that `s` holds for its id: no reading of that id is stronger, and
/// every earlier one is weaker.
pub open spec fn is_first_strongest(s: Seq<TagView>, i: int) -> bool {
    &&& 0 <= i < s.len()
    &&& forall|j: int|
        0 <= j < s.len() && #[trigger] s[j].id == s[i].id ==> s[j].strength <= s[i].strength
    &&& forall|j: int| 0 <= j < i && #[trigger] s[j].id == s[i].id ==> s[j].strength < s[i].strength
}

/// Whether `t` is the reading that `s` keeps for `t`'s id: the first of its
/// strongest readings.
pub open spec fn strongest_reading(s: Seq<TagView>, t: TagView) -> bool {
    exists|i: int| #[trigger] is_first_strongest(s, i) && s[i] == t
}

/// Whether `m` holds, once per id, exactly the ids of `s`, each with the
/// first of its strongest readings in `s`.
pub open spec fn keeps_strongest(m: Seq<TagView>, s: Seq<TagView>) -> bool {
    &&& unique_ids(m)
    &&& forall|id: Seq<char>| has_id(m, id) <==> has_id(s, id)
    &&& forall|k: int| 0 <= k < m.len() ==> strongest_reading(s, #[trigger] m[k])
}

/// A reading of an id that `m` already holds: the kept reading is replaced
/// only by a strictly stronger one.
proof fn lemma_keep_step_known(m: Seq<TagView>, s: Seq<TagView>, x: TagView, k: int)
    requires
        keeps_strongest(m, s),
        0 <= k < m.len(),
        m[k].id == x.id,
    ensures
        m[k].strength < x.strength ==> keeps_strongest(m.update(k, x), s.push(x)),
        !(m[k].strength < x.strength) ==> keeps_strongest(m, s.push(x)),
{
    let s2 = s.push(x);
    assert(strongest_reading(s, m[k]));
    let i0 = choose|i: int| #[trigger] is_first_strongest(s, i) && s[i] == m[k];
    if m[k].strength < x.strength {
        let m2 = m.update(k, x);
        assert(is_first_strongest(s2, s.len() as int)) by {
            assert forall|j: int| 0 <= j < s2.len() && #[trigger] s2[j].id == s2[s.len() as int].id
                implies s2[j].strength <= s2[s.len() as int].strength by {
                if j < s.len() {
                    assert(s2[j] == s[j]);
                    assert(s[j].id == s[i0].id);
                }
            }
            assert forall|j: int| 0 <= j < s.len() && #[trigger] s2[j].id == s2[s.len() as int].id
                implies s2[j].strength < s2[s.len() as int].strength by {
                assert(s2[j] == s[j]);
                assert(s[j].id == s[i0].id);
            }
        }
        assert(strongest_reading(s2, m2[k]));
        assert forall|q: int| 0 <= q < m2.len() implies strongest_reading(s2, #[trigger] m2[q]) by {
            if q != k {
                assert(strongest_reading(s, m[q]));
                let iq = choose|i: int| #[trigger] is_first_strongest(s, i) && s[i] == m[q];
                assert(m[q].id != m[k].id);
                assert(is_first_strongest(s2, iq)) by {
                    assert forall|j: int| 0 <= j < s2.len() && #[trigger] s2[j].id == s2[iq].id
                        implies s2[j].strength <= s2[iq].strength by {
                        if j < s.len() {
                            assert(s2[j] == s[j]);
                        }
                    }
                    assert forall|j: int| 0 <= j < iq && #[trigger] s2[j].id == s2[iq].id
                        implies s2[j].strength < s2[iq].strength by {
                        assert(s2[j] == s[j]);
                    }
                }
            }
        }
        assert forall|i: int, j: int|
            0 <= i < m2.len() && 0 <= j < m2.len() && i != j implies #[trigger] m2[i].id
            != #[trigger] m2[j].id by {
            assert(m[i].id != m[j].id);
        }
        assert forall|id: Seq<char>| has_id(m2, id) <==> has_id(s2, id) by {
            if has_id(m2, id) {
                let q = choose|q: int| 0 <= q < m2.len() && #[trigger] m2[q].id == id;
                assert(m[q].id == id);
                assert(has_id(m, id));
                let j = choose|j: int| 0 <= j < s.len() && #[trigger] s[j].id == id;
                assert(s2[j].id == id);
            }
            if has_id(s2, id) {
                let j = choose|j: int| 0 <= j < s2.len() && #[trigger] s2[j].id == id;
                if j < s.len() {
                    assert(s[j].id == id);
                    assert(has_id(s, id));
                    let q = choose|q: int| 0 <= q < m.len() && #[trigger] m[q].id == id;
                    assert(m2[q].id == id);
                } else {
                    assert(m2[k].id == id);
                }
            }
        }
    } else {
        assert(is_first_strongest(s2, i0)) by {
            assert forall|j: int| 0 <= j < s2.len() && #[trigger] s2[j].id == s2[i0].id
                implies s2[j].strength <= s2[i0].strength by {
                if j < s.len() {
                    assert(s2[j] == s[j]);
                }
            }
            assert forall|j: int| 0 <= j < i0 && #[trigger] s2[j].id == s2[i0].id
                implies s2[j].strength < s2[i0].strength by {
                assert(s2[j] == s[j]);
            }
        }
        assert forall|q: int| 0 <= q < m.len() implies strongest_reading(s2, #[trigger] m[q]) by {
            if q == k {
                assert(s2[i0] == m[k]);
            } else {
                assert(strongest_reading(s, m[q]));
                let iq = choose|i: int| #[trigger] is_first_strongest(s, i) && s[i] == m[q];
                assert(m[q].id != m[k].id);
                assert(is_first_strongest(s2, iq)) by {
                    assert forall|j: int| 0 <= j < s2.len() && #[trigger] s2[j].id == s2[iq].id
                        implies s2[j].strength <= s2[iq].strength by {
                        if j < s.len() {
                            assert(s2[j] == s[j]);
                        }
                    }
                    assert forall|j: int| 0 <= j < iq && #[trigger] s2[j].id == s2[iq].id
                        implies s2[j].strength < s2[iq].strength by {
                        assert(s2[j] == s[j]);
                    }
                }
            }
        }
        assert forall|id: Seq<char>| has_id(m, id) <==> has_id(s2, id) by {
            if has_id(m, id) {
                let j = choose|j: int| 0 <= j < s.len() && #[trigger] s[j].id == id;
                assert(s2[j].id == id);
            }
            if has_id(s2, id) {
                let j = choose|j: int| 0 <= j < s2.len() && #[trigger] s2[j].id == id;
                if j < s.len() {
                    assert(s[j].id == id);
                    assert(has_id(s, id));
                } else {
                    assert(m[k].id == id);
                }
            }
        }
    }
}

/// A reading of an id that `m` does not hold yet is kept as it is.
proof fn lemma_keep_step_new(m: Seq<TagView>, s: Seq<TagView>, x: TagView)
    requires
        keeps_strongest(m, s),
        !has_id(m, x.id),
    ensures
        keeps_strongest(m.push(x), s.push(x)),
{
    let s2 = s.push(x);
    let m2 = m.push(x);
    assert(!has_id(s, x.id));
    assert(is_first_strongest(s2, s.len() as int)) by {
        assert forall|j: int| 0 <= j < s2.len() && #[trigger] s2[j].id == s2[s.len() as int].id
            implies s2[j].strength <= s2[s.len() as int].strength by {
            if j < s.len() {
                assert(s[j].id == x.id);
            }
        }
        assert forall|j: int| 0 <= j < s.len() && #[trigger] s2[j].id == s2[s.len() as int].id
            implies s2[j].strength < s2[s.len() as int].strength by {
            assert(s2[j] == s[j]);
            assert(s[j].id == x.id);
        }
    }
    assert forall|q: int| 0 <= q < m2.len() implies strongest_reading(s2, #[trigger] m2[q]) by {
        if q == m.len() {
            assert(s2[s.len() as int] == m2[q]);
        } else {
            assert(m2[q] == m[q]);
            assert(strongest_reading(s, m[q]));
            let iq = choose|i: int| #[trigger] is_first_strongest(s, i) && s[i] == m[q];
            assert(m[q].id != x.id);
            assert(is_first_strongest(s2, iq)) by {
                assert forall|j: int| 0 <= j < s2.len() && #[trigger] s2[j].id == s2[iq].id
                    implies s2[j].strength <= s2[iq].strength by {
                    if j < s.len() {
                        assert(s2[j] == s[j]);
                    }
                }
                assert forall|j: int| 0 <= j < iq && #[trigger] s2[j].id == s2[iq].id
                    implies s2[j].strength < s2[iq].strength by {
                    assert(s2[j] == s[j]);
                }
            }
        }
    }
    assert forall|i: int, j: int|
        0 <= i < m2.len() && 0 <= j < m2.len() && i != j implies #[trigger] m2[i].id
        != #[trigger] m2[j].id by {
        if i < m.len() && j < m.len() {
            assert(m[i].id != m[j].id);
        } else if i < m.len() {
            assert(m[i].id != x.id);
        } else if j < m.len() {
            assert(m[j].id != x.id);
        }
    }
    assert forall|id: Seq<char>| has_id(m2, id) <==> has_id(s2, id) by {
        if has_id(m2, id) {
            let q = choose|q: int| 0 <= q < m2.len() && #[trigger] m2[q].id == id;
            if q < m.len() {
                assert(m[q].id == id);
                assert(has_id(m, id));
                let j = choose|j: int| 0 <= j < s.len() && #[trigger] s[j].id == id;
                assert(s2[j].id == id);
            } else {
                assert(s2[s.len() as int].id == id);
            }
        }
        if has_id(s2, id) {
            let j = choose|j: int| 0 <= j < s2.len() && #[trigger] s2[j].id == id;
            if j < s.len() {
                assert(s[j].id == id);
                assert(has_id(s, id));
                let q = choose|q: int| 0 <= q < m.len() && #[trigger] m[q].id == id;
                assert(m2[q].id == id);
            } else {
                assert(m2[m.len() as int].id == id);
            }
        }
    }
}


/// Per tag id, the strongest reading seen.
#[derive(Debug)]
pub struct TagsMap(Vec<Tag>);

impl View for TagsMap {
    type V = Seq<TagView>;

    closed spec fn view(&self) -> Seq<TagView> {
        views(self.0@)
    }
}

/// The readings that a list of maps holds, map after map.
pub open spec fn maps_readings(maps: Seq<TagsMap>) -> Seq<TagView> {
    maps.map_values(|m: TagsMap| m@).flatten()
}

/// Adds one reading to the map: an unknown id is added, a known id takes the
/// new reading only when its signal is strictly stronger. Whatever readings
/// the map kept the strongest of, it then keeps the strongest of those and
/// the new one.
fn add_tag_to_map(start: TagsMap, new_tag: Tag) -> (r: TagsMap)
    requires
        unique_ids(start@),
    ensures
        unique_ids(r@),
        forall|seen: Seq<TagView>|
            keeps_strongest(start@, seen) ==> #[trigger] keeps_strongest(r@, seen.push(new_tag@)),
{
    let ghost orig = start@;
    let mut map = start;
    let n = map.0.len();
    let mut k: usize = 0;
    while k < n
        invariant
            n == map.0@.len(),
            k <= n,
            map@ == orig,
            orig == start@,
            unique_ids(map@),
            forall|q: int| 0 <= q < k ==> map@[q].id != new_tag@.id,
        decreases n - k,
    {
        if str_equal(map.0[k].id.as_str(), new_tag.id.as_str()) {
            let ghost before = map@;
            let ghost after = if before[k as int].strength < new_tag@.strength {
                before.update(k as int, new_tag@)
            } else {
                before
            };
            proof {
                assert forall|seen: Seq<TagView>| keeps_strongest(before, seen) implies
                    #[trigger] keeps_strongest(after, seen.push(new_tag@)) by {
                    lemma_keep_step_known(before, seen, new_tag@, k as int);
                }
            }
            if map.0[k].strength < new_tag.strength {
                map.0.set(k, new_tag);
                assert(map@ =~= before.update(k as int, new_tag@));
                assert forall|i: int, j: int|
                    0 <= i < map@.len() && 0 <= j < map@.len() && i != j implies #[trigger] map@[i].id
                    != #[trigger] map@[j].id by {
                    assert(before[i].id != before[j].id);
                }
            }
            assert(map@ == after);
            return map;
        }
        k = k + 1;
    }
    let ghost before = map@;
    proof {
        assert(!has_id(before, new_tag@.id));
        assert forall|seen: Seq<TagView>| keeps_strongest(before, seen) implies
            #[trigger] keeps_strongest(before.push(new_tag@), seen.push(new_tag@)) by {
            lemma_keep_step_new(before, seen, new_tag@);
        }
        assert forall|i: int, j: int|
            0 <= i < before.push(new_tag@).len() && 0 <= j < before.push(new_tag@).len() && i != j
            implies #[trigger] before.push(new_tag@)[i].id != #[trigger] before.push(new_tag@)[j].id by {
            if i < before.len() && j < before.len() {
                assert(before[i].id != before[j].id);
            }
        }
    }
    map.0.push(new_tag);
    assert(map@ =~= before.push(new_tag@));
    map
}

impl TagsMap {
    /// Whether no two readings of the map share an id.
    pub open spec fn wf(&self) -> bool {
        unique_ids(self@)
    }

    fn empty() -> (r: TagsMap)
        ensures
            keeps_strongest(r@, Seq::empty()),
    {
        let r = TagsMap(Vec::new());
        assert(r@ =~= Seq::<TagView>::empty());
        r
    }

    /// Builds the map from a list of readings: per id, the first of its
    /// strongest readings.
    pub fn from(tags: Vec<Tag>) -> (r: TagsMap)
        ensures
            keeps_strongest(r@, views(tags@)),
    {
        let mut map = TagsMap::empty();
        let mut i: usize = 0;
        while i < tags.len()
            invariant
                i <= tags@.len(),
                keeps_strongest(map@, views(tags@).take(i as int)),
            decreases tags@.len() - i,
        {
            let t = tags[i].clone();
            assert(views(tags@).take(i + 1) =~= views(tags@).take(i as int).push(t@));
            map = add_tag_to_map(map, t);
            i = i + 1;
        }
        assert(views(tags@).take(tags@.len() as int) =~= views(tags@));
        map
    }

    /// Builds one map from the readings of several maps, taken map after
    /// map: per id, the first of its strongest readings.
    pub fn from_maps(maps: &Vec<TagsMap>) -> (r: TagsMap)
        ensures
            keeps_strongest(r@, maps_readings(maps@)),
    {
        let mut map = TagsMap::empty();
        let ghost outer = maps@.map_values(|m: TagsMap| m@);
        let mut i: usize = 0;
        assert(outer.take(0).flatten() =~= Seq::<TagView>::empty());
        while i < maps.len()
            invariant
                i <= maps@.len(),
                outer == maps@.map_values(|m: TagsMap| m@),
                keeps_strongest(map@, outer.take(i as int).flatten()),
            decreases maps@.len() - i,
        {
            let current = &maps[i];
            let mut j: usize = 0;
            assert(outer.take(i as int).flatten() + current@.take(0) =~= outer.take(i as int).flatten());
            while j < current.0.len()
                invariant
                    i < maps@.len(),
                    current == maps@[i as int],
                    j <= current@.len(),
                    keeps_strongest(map@, outer.take(i as int).flatten() + current@.take(j as int)),
                decreases current@.len() - j,
            {
                let t = current.0[j].clone();
                let ghost before = outer.take(i as int).flatten() + current@.take(j as int);
                assert(outer.take(i as int).flatten() + current@.take(j + 1) =~= before.push(t@));
                map = add_tag_to_map(map, t);
                j = j + 1;
            }
            proof {
                assert(current@.take(current@.len() as int) =~= current@);
                assert(outer.take(i + 1) =~= outer.take(i as int).push(current@));
                outer.take(i as int).lemma_flatten_push(current@);
            }
            i = i + 1;
        }
        assert(outer.take(maps@.len() as int) =~= outer);
        map
    }

    /// Adds readings to the map, each as [`TagsMap::from`] would: whatever
    /// readings the map kept the strongest of, it then keeps the strongest of
    /// those followed by the new ones.
    pub fn add_tags(&mut self, tags: Vec<Tag>)
        requires
            old(self).wf(),
        ensures
            final(self).wf(),
            keeps_strongest(final(self)@, old(self)@ + views(tags@)),
            forall|seen: Seq<TagView>|
                keeps_strongest(old(self)@, seen) ==> #[trigger] keeps_strongest(
                    final(self)@,
                    seen + views(tags@),
                ),
    {
        let mut map = TagsMap(Vec::new());
        std::mem::swap(&mut map, self);
        let ghost start = map@;
        proof {
            lemma_refold_keeps(start);
        }
        let mut i: usize = 0;
        assert forall|seen: Seq<TagView>| #[trigger] keeps_strongest(start, seen) implies keeps_strongest(
            map@,
            seen + views(tags@).take(0),
        ) by {
            assert(seen + views(tags@).take(0) =~= seen);
        }
        while i < tags.len()
            invariant
                i <= tags@.len(),
                unique_ids(map@),
                forall|seen: Seq<TagView>|
                    #[trigger] keeps_strongest(start, seen) ==> keeps_strongest(
                        map@,
                        seen + views(tags@).take(i as int),
                    ),
            decreases tags@.len() - i,
        {
            let t = tags[i].clone();
            let ghost before = map@;
            map = add_tag_to_map(map, t);
            assert forall|seen: Seq<TagView>| #[trigger] keeps_strongest(start, seen) implies keeps_strongest(
                map@,
                seen + views(tags@).take(i + 1),
            ) by {
                assert(seen + views(tags@).take(i + 1) =~= (seen + views(tags@).take(i as int)).push(
                    t@,
                ));
                assert(keeps_strongest(before, seen + views(tags@).take(i as int)));
            }
            i = i + 1;
        }
        assert(views(tags@).take(tags@.len() as int) =~= views(tags@));
        assert(keeps_strongest(map@, start + views(tags@)));
        *self = map;
    }

    /// The readings of the map, in no particular order.
    pub fn values(&self) -> (r: &[Tag])
        ensures
            views(r@) == self@,
    {
        self.0.as_slice()
    }

    /// The number of ids in the map.
    pub fn len(&self) -> (r: usize)
        ensures
            r == self@.len(),
    {
        self.0.len()
    }

    /// Whether the map holds a reading of `id`.
    pub fn contains_key(&self, id: &str) -> (r: bool)
        ensures
            r == has_id(self@, id@),
    {
        let mut k: usize = 0;
        while k < self.0.len()
            invariant
                k <= self@.len(),
                forall|q: int| 0 <= q < k ==> self@[q].id != id@,
            decreases self@.len() - k,
        {
            if str_equal(self.0[k].id.as_str(), id) {
                assert(self@[k as int].id == id@);
                return true;
            }
            k = k + 1;
        }
        false
    }

    /// The reading that the map holds for `id`, if any.
    pub fn get(&self, id: &str) -> (r: Option<&Tag>)
        ensures
            r is None <==> !has_id(self@, id@),
            r matches Some(t) ==> t@.id == id@ && self@.contains(t@),
    {
        let mut k: usize = 0;
        while k < self.0.len()
            invariant
                k <= self@.len(),
                forall|q: int| 0 <= q < k ==> self@[q].id != id@,
            decreases self@.len() - k,
        {
            if str_equal(self.0[k].id.as_str(), id) {
                assert(self@[k as int].id == id@);
                return Some(&self.0[k]);
            }
            k = k + 1;
        }
        None
    }
}

/// Folding a map's own readings again gives the same map: with one reading
/// per id, each is the strongest of its id.
pub proof fn lemma_refold_keeps(m: Seq<TagView>)
    requires
        unique_ids(m),
    ensures
        keeps_strongest(m, m),
{
    assert forall|k: int| 0 <= k < m.len() implies strongest_reading(m, #[trigger] m[k]) by {
        assert(is_first_strongest(m, k));
    }
}


#[verifier::external_type_specification]
#[verifier::external_body]
pub struct ExThreadRng(rand::rngs::ThreadRng);

/// Wraps `rand::thread_rng`: a handle to the generator of the calling
/// thread. Nothing is promised of it.
#[verifier::external_body]
fn thread_rng() -> rand::rngs::ThreadRng {
    rand::thread_rng()
}

/// Wraps `rand::Rng::gen_range` on the half-open range `low..high`: the
/// number lies in the range (the range must not be empty, else the call
/// panics). Which number comes is chance and is not stated.
#[verifier::external_body]
fn gen_range(rng: &mut rand::rngs::ThreadRng, low: i32, high: i32) -> (r: i32)
    requires
        low < high,
    ensures
        low <= r < high,
{
    rng.gen_range(low..high)
}

/// Wraps `rand::seq::SliceRandom::choose` on a slice of string slices: `None`
/// for an empty slice, else (a copy of) one of its elements. Which one is
/// chance and is not stated.
#[verifier::external_body]
fn choose_one(rng: &mut rand::rngs::ThreadRng, items: &[&str]) -> (r: Option<String>)
    ensures
        r is Some <==> items@.len() > 0,
        r matches Some(s) ==> exists|i: int| 0 <= i < items@.len() && s@ == (#[trigger] items@[i])@,
{
    match items.choose(rng) {
        Some(s) => Some(s.to_string()),
        None => None,
    }
}

/// The ids that the mock reader hands out.
pub open spec fn mock_rfid_tags() -> Seq<Seq<char>> {
    seq![
        "abc123"@,
        "abc456"@,
        "abc789"@,
        "def123"@,
        "def456"@,
        "def789"@,
        "ghi123"@,
        "ghi456"@,
        "ghi789"@,
    ]
}

/// What a made-up reading looks like: a mock id, one of the antennas, and a
/// strength from the weakest allowed up to (not including) the strongest.
pub open spec fn is_mock_reading(t: TagView) -> bool {
    &&& mock_rfid_tags().contains(t.id)
    &&& MIN_ANTENNA <= t.antenna <= MAX_ANTENNA
    &&& MIN_STRENGTH <= t.strength < MAX_STRENGTH
}

impl Tag {
    /// A made-up reading, for running without a reader.
    pub fn random() -> (t: Tag)
        ensures
            is_mock_reading(t@),
    {
        let ids: Vec<&str> = vec![
            "abc123",
            "abc456",
            "abc789",
            "def123",
            "def456",
            "def789",
            "ghi123",
            "ghi456",
            "ghi789",
        ];
        assert(ids@.map_values(|s: &str| s@) =~= mock_rfid_tags());
        let mut rng = thread_rng();
        let chosen = choose_one(&mut rng, ids.as_slice());
        let id = match chosen {
            Some(id) => id,
            None => {
                assert(false);
                String::new()
            },
        };
        proof {
            let i = choose|i: int| 0 <= i < ids@.len() && id@ == (#[trigger] ids@[i])@;
            assert(mock_rfid_tags()[i] == id@);
        }
        let antenna = gen_range(&mut rng, MIN_ANTENNA as i32, MAX_ANTENNA as i32 + 1) as u16;
        let strength = gen_range(&mut rng, MIN_STRENGTH as i32, MAX_STRENGTH as i32) as i8;
        Tag { id, antenna, strength }
    }
}

impl TagsMap {
    /// A map of made-up readings: `size` copies of one made-up reading, so
    /// one entry, or none when `size` is zero.
    pub fn random(size: usize) -> (r: TagsMap)
        ensures
            r.wf(),
            r@.len() == if size == 0 {
                0int
            } else {
                1int
            },
            forall|k: int| 0 <= k < r@.len() ==> is_mock_reading(#[trigger] r@[k]),
    {
        let tag = Tag::random();
        let mut tags: Vec<Tag> = Vec::new();
        let mut i: usize = 0;
        while i < size
            invariant
                i <= size,
                tags@.len() == i,
                forall|k: int| 0 <= k < i ==> #[trigger] tags@[k] == tag,
            decreases size - i,
        {
            tags.push(tag.clone());
            i = i + 1;
        }
        let r = TagsMap::from(tags);
        proof {
            let s = views(tags@);
            if size == 0 {
                assert(r@.len() == 0) by {
                    if r@.len() > 0 {
                        assert(has_id(r@, r@[0].id));
                    }
                }
            } else {
                assert(s[0].id == tag@.id);
                assert(has_id(s, tag@.id));
                assert(has_id(r@, tag@.id));
                assert forall|k: int| 0 <= k < r@.len() implies #[trigger] r@[k] == tag@ by {
                    assert(strongest_reading(s, r@[k]));
                }
                if r@.len() > 1 {
                    assert(r@[0] == tag@);
                    assert(r@[1] == tag@);
                    assert(r@[0].id != r@[1].id);
                }
            }
        }
        r
    }
}

/// Every made-up reading passes validation.
pub proof fn lemma_mock_readings_are_valid(t: TagView)
    requires
        is_mock_reading(t),
    ensures
        build_outcome(t.id, t.antenna, t.strength) == Ok::<TagView, TagErrorView>(t),
{
}

/// Folding readings in two batches, then merging the two maps, keeps the
/// same readings as folding all of them at once.
pub proof fn lemma_merge_keeps_strongest(
    m1: Seq<TagView>,
    a: Seq<TagView>,
    m2: Seq<TagView>,
    b: Seq<TagView>,
    m: Seq<TagView>,
)
    requires
        keeps_strongest(m1, a),
        keeps_strongest(m2, b),
        keeps_strongest(m, m1 + m2),
    ensures
        keeps_strongest(m, a + b),
{
    let c = m1 + m2;
    let ab = a + b;
    assert forall|id: Seq<char>| has_id(m, id) <==> has_id(ab, id) by {
        if has_id(c, id) {
            let j = choose|j: int| 0 <= j < c.len() && #[trigger] c[j].id == id;
            if j < m1.len() {
                assert(m1[j].id == id);
                assert(has_id(m1, id));
                let i = choose|i: int| 0 <= i < a.len() && #[trigger] a[i].id == id;
                assert(ab[i].id == id);
            } else {
                assert(m2[j - m1.len()].id == id);
                assert(has_id(m2, id));
                let i = choose|i: int| 0 <= i < b.len() && #[trigger] b[i].id == id;
                assert(ab[a.len() + i].id == id);
            }
        }
        if has_id(ab, id) {
            let j = choose|j: int| 0 <= j < ab.len() && #[trigger] ab[j].id == id;
            if j < a.len() {
                assert(a[j].id == id);
                assert(has_id(a, id));
                let q = choose|q: int| 0 <= q < m1.len() && #[trigger] m1[q].id == id;
                assert(c[q].id == id);
            } else {
                assert(b[j - a.len()].id == id);
                assert(has_id(b, id));
                let q = choose|q: int| 0 <= q < m2.len() && #[trigger] m2[q].id == id;
                assert(c[m1.len() + q].id == id);
            }
        }
    }
    assert forall|k: int| 0 <= k < m.len() implies strongest_reading(ab, #[trigger] m[k]) by {
        assert(strongest_reading(c, m[k]));
        let p = choose|p: int| #[trigger] is_first_strongest(c, p) && c[p] == m[k];
        let t = m[k];
        if p < m1.len() {
            assert(c[p] == m1[p]);
            assert(strongest_reading(a, m1[p]));
            let ia = choose|i: int| #[trigger] is_first_strongest(a, i) && a[i] == m1[p];
            assert(is_first_strongest(ab, ia)) by {
                assert forall|j: int| 0 <= j < ab.len() && #[trigger] ab[j].id == ab[ia].id
                    implies ab[j].strength <= ab[ia].strength by {
                    if j < a.len() {
                        assert(ab[j] == a[j]);
                    } else {
                        let jb = j - a.len();
                        assert(ab[j] == b[jb]);
                        assert(b[jb].id == t.id);
                        assert(has_id(b, t.id));
                        assert(has_id(m2, t.id));
                        let q = choose|q: int| 0 <= q < m2.len() && #[trigger] m2[q].id == t.id;
                        assert(strongest_reading(b, m2[q]));
                        let ib = choose|i: int| #[trigger] is_first_strongest(b, i) && b[i] == m2[q];
                        assert(b[jb].strength <= m2[q].strength);
                        assert(c[m1.len() + q] == m2[q]);
                        assert(c[m1.len() + q].strength <= t.strength);
                    }
                }
                assert forall|j: int| 0 <= j < ia && #[trigger] ab[j].id == ab[ia].id
                    implies ab[j].strength < ab[ia].strength by {
                    assert(ab[j] == a[j]);
                }
            }
        } else {
            let pb = p - m1.len();
            assert(c[p] == m2[pb]);
            assert(strongest_reading(b, m2[pb]));
            let ib = choose|i: int| #[trigger] is_first_strongest(b, i) && b[i] == m2[pb];
            let iab = a.len() + ib;
            assert(ab[iab] == b[ib]);
            assert forall|j: int| 0 <= j < a.len() && a[j].id == t.id implies #[trigger] a[j].strength
                < t.strength by {
                assert(has_id(a, t.id));
                assert(has_id(m1, t.id));
                let r = choose|r: int| 0 <= r < m1.len() && #[trigger] m1[r].id == t.id;
                assert(strongest_reading(a, m1[r]));
                let ir = choose|i: int| #[trigger] is_first_strongest(a, i) && a[i] == m1[r];
                assert(a[j].strength <= m1[r].strength);
                assert(c[r] == m1[r]);
                assert(c[r].id == c[p].id);
                assert(c[r].strength < t.strength);
            }
            assert(is_first_strongest(ab, iab)) by {
                assert forall|j: int| 0 <= j < ab.len() && #[trigger] ab[j].id == ab[iab].id
                    implies ab[j].strength <= ab[iab].strength by {
                    if j < a.len() {
                        assert(ab[j] == a[j]);
                        assert(a[j].strength < t.strength);
                    } else {
                        assert(ab[j] == b[j - a.len()]);
                    }
                }
                assert forall|j: int| 0 <= j < iab && #[trigger] ab[j].id == ab[iab].id
                    implies ab[j].strength < ab[iab].strength by {
                    if j < a.len() {
                        assert(ab[j] == a[j]);
                        assert(a[j].strength < t.strength);
                    } else {
                        assert(ab[j] == b[j - a.len()]);
                    }
                }
            }
        }
    }
}


/// The fields of a tag report of the reader that the library reads: the
/// EPC of the token, the antenna, and the signal strength.
#[derive(Debug)]
pub struct TagReport {
    pub epc: Vec<u8>,
    pub antenna_id: Option<u16>,
    pub peak_rssi: Option<i8>,
}

impl Clone for TagReport {
    fn clone(&self) -> (r: Self)
        ensures
            r.epc@ == self.epc@,
            r.antenna_id == self.antenna_id,
            r.peak_rssi == self.peak_rssi,
    {
        TagReport { epc: self.epc.clone(), antenna_id: self.antenna_id, peak_rssi: self.peak_rssi }
    }
}

/// What a complete report gives: the EPC in upper-case hexadecimal as id,
/// validated with the report's antenna and strength.
pub open spec fn report_outcome(report: TagReport) -> Result<TagView, TagErrorView> {
    build_outcome(hex_upper(report.epc@), report.antenna_id->0, report.peak_rssi->0)
}

impl Tag {
    /// The reading of a tag report. The report must name its antenna and its
    /// signal strength.
    pub fn from_report_data(report: TagReport) -> (r: Result<Tag, TagError>)
        requires
            report.antenna_id is Some,
            report.peak_rssi is Some,
        ensures
            outcome_view(r) == report_outcome(report),
    {
        let id = bytes_to_hex_upper(report.epc.as_slice());
        let antenna = match report.antenna_id {
            Some(a) => a,
            None => 0,
        };
        let strength = match report.peak_rssi {
            Some(s) => s,
            None => 0,
        };
        Self::build(id, antenna, strength)
    }
}

} // verus!
