//! The line protocol of the vendor's reader program: each line is
//! `id|antenna|strength`, and per time window the strongest reading of
//! every id is kept.
use vstd::prelude::*;
use vstd::string::StringSliceAdditionalSpecFns;
use vstd::utf8::{encode_utf8, is_char_boundary, valid_utf8};
use crate::text::{parse_u8, parse_u8_spec, parse_i8, parse_i8_spec, str_equal};

verus! {

/// ASCII `|`, which separates the fields of a line.
pub open spec fn bar_byte() -> u8 {
    124
}

/// The fields of a line, split at every `|` (as `str::split('|')` does:
/// `k` separators give `k + 1` fields, some of them possibly empty).
pub open spec fn split_fields(s: Seq<u8>) -> Seq<Seq<u8>>
    decreases s.len(),
{
    if s.len() == 0 {
        seq![Seq::empty()]
    } else {
        let fields = split_fields(s.drop_last());
        if s.last() == bar_byte() {
            fields.push(Seq::empty())
        } else {
            fields.update(fields.len() - 1, fields.last().push(s.last()))
        }
    }
}

proof fn lemma_split_fields_nonempty(s: Seq<u8>)
    ensures
        split_fields(s).len() >= 1,
    decreases s.len(),
{
    if s.len() > 0 {
        lemma_split_fields_nonempty(s.drop_last());
    }
}

/// A field read as a number, or zero when it is not one (as
/// `parse().unwrap_or_default()` does).
pub open spec fn u8_or_zero(field: Seq<u8>) -> u8 {
    match parse_u8_spec(field) {
        Some(v) => v,
        None => 0,
    }
}

/// A field read as a signed number, or zero when it is not one.
pub open spec fn i8_or_zero(field: Seq<u8>) -> i8 {
    match parse_i8_spec(field) {
        Some(v) => v,
        None => 0,
    }
}

/// Splits a line `id|antenna|strength`. Lines without exactly three fields
/// give `None`; an antenna or strength that is not a number reads as zero.
pub fn parse_reading_line(line: &str) -> (r: Option<(String, u8, i8)>)
    ensures
        r is Some <==> split_fields(line.spec_bytes()).len() == 3,
        r matches Some((id, antenna, strength)) ==> {
            let fields = split_fields(line.spec_bytes());
            &&& encode_utf8(id@) == fields[0]
            &&& antenna == u8_or_zero(fields[1])
            &&& strength == i8_or_zero(fields[2])
        },
{
    let bytes = line.as_bytes();
    let n = bytes.len();
    let mut starts: Vec<usize> = Vec::new();
    starts.push(0);
    let mut k: usize = 0;
    assert(bytes@.take(0) =~= Seq::<u8>::empty());
    while k < n
        invariant
            n == bytes@.len(),
            k <= n,
            starts@.len() >= 1,
            starts@[0] == 0,
            split_fields(bytes@.take(k as int)).len() == starts@.len(),
            forall|i: int| 0 <= i < starts@.len() ==> #[trigger] starts@[i] <= k,
            forall|i: int| 0 < i < starts@.len() ==> #[trigger] starts@[i] >= 1 && bytes@[starts@[i] - 1] == bar_byte(),
            forall|i: int| 0 <= i < starts@.len() - 1 ==> starts@[i] < #[trigger] starts@[i + 1],
            forall|i: int| 0 <= i < starts@.len() - 1 ==> #[trigger] split_fields(bytes@.take(k as int))[i]
                == bytes@.subrange(starts@[i] as int, starts@[i + 1] - 1),
            split_fields(bytes@.take(k as int))[starts@.len() - 1] == bytes@.subrange(
                starts@[starts@.len() - 1] as int,
                k as int,
            ),
        decreases n - k,
    {
        let b = bytes[k];
        let ghost prev = split_fields(bytes@.take(k as int));
        let ghost prev_starts = starts@;
        assert(bytes@.take(k + 1).drop_last() =~= bytes@.take(k as int));
        assert(bytes@.take(k + 1).last() == b);
        if b == 124 {
            starts.push(k + 1);
            assert(split_fields(bytes@.take(k + 1)) == prev.push(Seq::empty()));
            assert forall|i: int| 0 <= i < starts@.len() - 1 implies #[trigger] split_fields(
                bytes@.take(k + 1),
            )[i] == bytes@.subrange(starts@[i] as int, starts@[i + 1] - 1) by {
                if i < prev_starts.len() - 1 {
                    assert(starts@[i] == prev_starts[i]);
                    assert(starts@[i + 1] == prev_starts[i + 1]);
                } else {
                    assert(i == prev_starts.len() - 1);
                }
            }
            assert(bytes@.subrange(k + 1, k + 1) =~= Seq::<u8>::empty());
        } else {
            let ghost last = prev_starts.len() - 1;
            assert(split_fields(bytes@.take(k + 1)) == prev.update(last, prev[last].push(b)));
            assert(bytes@.subrange(starts@[last] as int, k + 1) =~= bytes@.subrange(
                starts@[last] as int,
                k as int,
            ).push(b));
        }
        k = k + 1;
    }
    assert(bytes@.take(n as int) =~= bytes@);
    if starts.len() != 3 {
        return None;
    }
    assert(starts@[1int] < starts@[1int + 1]);
    let first_bar = starts[1] - 1;
    let second_bar = starts[2] - 1;
    proof {
        vstd::utf8::encode_utf8_valid_utf8(line@);
        assert(valid_utf8(bytes@));
        vstd::utf8::is_char_boundary_iff_not_is_continuation_byte(bytes@, first_bar as int);
        assert(is_char_boundary(bytes@, first_bar as int));
    }
    let (head, _rest) = line.split_at(first_bar);
    let id = head.to_owned();
    let antenna = match parse_u8(&bytes[starts[1]..second_bar]) {
        Some(v) => v,
        None => 0,
    };
    let strength = match parse_i8(&bytes[starts[2]..n]) {
        Some(v) => v,
        None => 0,
    };
    assert(head.spec_bytes() =~= bytes@.subrange(0, first_bar as int));
    Some((id, antenna, strength))
}

/// One reading of the vendor's reader program, strongest per window.
#[derive(Debug)]
pub struct Tag {
    id: String,
    strength: i8,
    antenna: u8,
}

/// The mathematical value of a [`Tag`] of the line protocol.
pub struct LineTagView {
    pub id: Seq<char>,
    pub strength: i8,
    pub antenna: u8,
}

impl View for Tag {
    type V = LineTagView;

    closed spec fn view(&self) -> LineTagView {
        LineTagView { id: self.id@, strength: self.strength, antenna: self.antenna }
    }
}

impl Clone for Tag {
    fn clone(&self) -> (r: Self)
        ensures
            r@ == self@,
    {
        Tag { id: self.id.clone(), strength: self.strength, antenna: self.antenna }
    }
}

impl Tag {
    /// The id of the token.
    pub fn id(&self) -> (r: &str)
        ensures
            r@ == self@.id,
    {
        self.id.as_str()
    }

    /// The strongest signal seen in the window.
    pub fn strength(&self) -> (r: i8)
        ensures
            r == self@.strength,
    {
        self.strength
    }

    /// The antenna of that reading.
    pub fn antenna(&self) -> (r: u8)
        ensures
            r == self@.antenna,
    {
        self.antenna
    }
}

/// The values of a list of line readings.
pub open spec fn line_views(v: Seq<Tag>) -> Seq<LineTagView> {
    v.map_values(|t: Tag| t@)
}

/// Whether no two entries share an id.
pub open spec fn distinct_ids(s: Seq<LineTagView>) -> bool {
    forall|i: int, j: int|
        0 <= i < s.len() && 0 <= j < s.len() && i != j ==> #[trigger] s[i].id != #[trigger] s[j].id
}

/// The entries after recording a reading: a known id takes the reading when
/// it is strictly stronger; an unknown id starts at the weakest strength on
/// antenna 0 and then takes the reading if it is stronger than that.
pub open spec fn recorded(
    s: Seq<LineTagView>,
    id: Seq<char>,
    antenna: u8,
    strength: i8,
) -> Seq<LineTagView> {
    if exists|k: int| 0 <= k < s.len() && (#[trigger] s[k]).id == id {
        let k = choose|k: int| 0 <= k < s.len() && (#[trigger] s[k]).id == id;
        if strength > s[k].strength {
            s.update(k, LineTagView { id, strength, antenna })
        } else {
            s
        }
    } else if strength > i8::MIN {
        s.push(LineTagView { id, strength, antenna })
    } else {
        s.push(LineTagView { id, strength: i8::MIN, antenna: 0 })
    }
}

/// Recording a reading into a window whose ids are distinct: an id the
/// window does not hold yet is added with exactly the reading (a reading at
/// the weakest possible strength, `i8::MIN`, is added as the placeholder on
/// antenna 0); an id it holds takes the reading, antenna included, exactly
/// when the reading is strictly stronger, and nothing else changes.
pub proof fn lemma_record_step(s: Seq<LineTagView>, id: Seq<char>, antenna: u8, strength: i8)
    requires
        distinct_ids(s),
    ensures
        (forall|k: int| 0 <= k < s.len() ==> s[k].id != id) && strength > i8::MIN ==> recorded(
            s,
            id,
            antenna,
            strength,
        ) == s.push(LineTagView { id, strength, antenna }),
        (forall|k: int| 0 <= k < s.len() ==> s[k].id != id) && strength == i8::MIN ==> recorded(
            s,
            id,
            antenna,
            strength,
        ) == s.push(LineTagView { id, strength: i8::MIN, antenna: 0 }),
        forall|k: int|
            0 <= k < s.len() && #[trigger] s[k].id == id ==> recorded(s, id, antenna, strength) == if strength
                > s[k].strength {
                s.update(k, LineTagView { id, strength, antenna })
            } else {
                s
            },
        distinct_ids(recorded(s, id, antenna, strength)),
{
    if exists|k: int| 0 <= k < s.len() && (#[trigger] s[k]).id == id {
        let c = choose|k: int| 0 <= k < s.len() && (#[trigger] s[k]).id == id;
        assert forall|k: int| 0 <= k < s.len() && #[trigger] s[k].id == id implies k == c by {
            if k != c {
                assert(s[k].id != s[c].id);
            }
        }
        let r = recorded(s, id, antenna, strength);
        assert forall|i: int, j: int|
            0 <= i < r.len() && 0 <= j < r.len() && i != j implies #[trigger] r[i].id
            != #[trigger] r[j].id by {
            assert(s[i].id != s[j].id);
        }
    } else {
        let r = recorded(s, id, antenna, strength);
        assert forall|i: int, j: int|
            0 <= i < r.len() && 0 <= j < r.len() && i != j implies #[trigger] r[i].id
            != #[trigger] r[j].id by {
            if i < s.len() && j < s.len() {
                assert(s[i].id != s[j].id);
            } else if i < s.len() {
                assert(s[i].id != id);
            } else if j < s.len() {
                assert(s[j].id != id);
            }
        }
    }
}

/// Whether some entry of the window has this id.
pub open spec fn holds_id(w: Seq<LineTagView>, id: Seq<char>) -> bool {
    exists|k: int| 0 <= k < w.len() && #[trigger] w[k].id == id
}

/// Whether some reading has this id.
pub open spec fn reads_id(readings: Seq<LineReading>, id: Seq<char>) -> bool {
    exists|i: int| 0 <= i < readings.len() && #[trigger] readings[i].0 == id
}

/// A reading of the line protocol: id, antenna, strength.
pub type LineReading = (Seq<char>, u8, i8);

/// The window after recording `readings` in order into an empty window.
pub open spec fn window_after(readings: Seq<LineReading>) -> Seq<LineTagView>
    decreases readings.len(),
{
    if readings.len() == 0 {
        Seq::empty()
    } else {
        let r = readings.last();
        recorded(window_after(readings.drop_last()), r.0, r.1, r.2)
    }
}

/// What a window holds after any run of readings: every id read, once; and
/// per id, unless no reading of it was stronger than `i8::MIN`, one of the
/// readings of that id, antenna and strength together, whose strength no
/// reading of that id exceeds.
pub proof fn lemma_window_keeps_strongest_reading(readings: Seq<LineReading>)
    ensures
        distinct_ids(window_after(readings)),
        forall|id: Seq<char>| #[trigger] holds_id(window_after(readings), id) <==> reads_id(readings, id),
        forall|k: int|
            0 <= k < window_after(readings).len() && #[trigger] window_after(readings)[k].strength
                > i8::MIN ==> (exists|i: int|
                0 <= i < readings.len() && #[trigger] readings[i] == (
                    window_after(readings)[k].id,
                    window_after(readings)[k].antenna,
                    window_after(readings)[k].strength,
                )),
        forall|k: int, i: int|
            0 <= k < window_after(readings).len() && 0 <= i < readings.len() && #[trigger] readings[i].0
                == #[trigger] window_after(readings)[k].id ==> readings[i].2 <= window_after(
                readings,
            )[k].strength,
    decreases readings.len(),
{
    let w = window_after(readings);
    if readings.len() > 0 {
        let init = readings.drop_last();
        let r = readings.last();
        let n = readings.len() - 1;
        lemma_window_keeps_strongest_reading(init);
        let w0 = window_after(init);
        lemma_record_step(w0, r.0, r.1, r.2);
        assert(w == recorded(w0, r.0, r.1, r.2));
        assert forall|i: int| 0 <= i < init.len() implies #[trigger] readings[i] == init[i] by {}
        assert(readings[n] == r);
        if exists|c: int| 0 <= c < w0.len() && (#[trigger] w0[c]).id == r.0 {
            let c = choose|c: int| 0 <= c < w0.len() && (#[trigger] w0[c]).id == r.0;
            assert(w0[c].id == r.0);
            assert(w == if r.2 > w0[c].strength {
                w0.update(c, LineTagView { id: r.0, strength: r.2, antenna: r.1 })
            } else {
                w0
            });
            assert(w.len() == w0.len());
            assert forall|k: int| 0 <= k < w.len() implies #[trigger] w[k].id == w0[k].id by {}
            assert forall|id: Seq<char>| #[trigger] holds_id(w, id) <==> reads_id(readings, id) by {
                if exists|k: int| 0 <= k < w.len() && #[trigger] w[k].id == id {
                    let k = choose|k: int| 0 <= k < w.len() && #[trigger] w[k].id == id;
                    assert(w[k].id == w0[k].id);
                    assert(holds_id(w0, w0[k].id));
                    assert(reads_id(init, w0[k].id));
                    let i = choose|i: int| 0 <= i < init.len() && #[trigger] init[i].0 == w0[k].id;
                    assert(readings[i].0 == id);
                }
                if exists|i: int| 0 <= i < readings.len() && #[trigger] readings[i].0 == id {
                    let i = choose|i: int| 0 <= i < readings.len() && #[trigger] readings[i].0 == id;
                    if i < n {
                        assert(init[i].0 == id);
                        assert(reads_id(init, id));
                        assert(holds_id(w0, id));
                        let k = choose|k: int| 0 <= k < w0.len() && #[trigger] w0[k].id == id;
                        assert(w[k].id == id);
                    } else {
                        assert(w[c].id == id);
                    }
                }
            }
            assert forall|k: int|
                0 <= k < w.len() && #[trigger] w[k].strength > i8::MIN implies (exists|i: int|
                    0 <= i < readings.len() && #[trigger] readings[i] == (w[k].id, w[k].antenna, w[k].strength)) by {
                if k == c && r.2 > w0[c].strength {
                    assert(readings[n] == (w[k].id, w[k].antenna, w[k].strength));
                } else {
                    assert(w[k] == w0[k]);
                    let i = choose|i: int|
                        0 <= i < init.len() && #[trigger] init[i] == (w0[k].id, w0[k].antenna, w0[k].strength);
                    assert(readings[i] == init[i]);
                }
            }
            assert forall|k: int, i: int|
                0 <= k < w.len() && 0 <= i < readings.len() && #[trigger] readings[i].0 == #[trigger] w[k].id
                implies readings[i].2 <= w[k].strength by {
                if i < n {
                    assert(init[i].0 == w0[k].id || k == c);
                    if k == c {
                        assert(init[i].0 == w0[c].id);
                        assert(init[i].2 <= w0[c].strength);
                    } else {
                        assert(w[k] == w0[k]);
                        assert(init[i].2 <= w0[k].strength);
                    }
                } else {
                    assert(readings[i] == r);
                    if k != c {
                        assert(w[k] == w0[k]);
                        assert(w0[k].id != w0[c].id);
                    }
                }
            }
        } else {
            assert(w.len() == w0.len() + 1);
            assert forall|id: Seq<char>| #[trigger] holds_id(w, id) <==> reads_id(readings, id) by {
                if exists|k: int| 0 <= k < w.len() && #[trigger] w[k].id == id {
                    let k = choose|k: int| 0 <= k < w.len() && #[trigger] w[k].id == id;
                    if k < w0.len() {
                        assert(w[k] == w0[k]);
                        assert(holds_id(w0, w0[k].id));
                    assert(reads_id(init, w0[k].id));
                        let i = choose|i: int| 0 <= i < init.len() && #[trigger] init[i].0 == w0[k].id;
                        assert(readings[i].0 == id);
                    } else {
                        assert(readings[n].0 == id);
                    }
                }
                if exists|i: int| 0 <= i < readings.len() && #[trigger] readings[i].0 == id {
                    let i = choose|i: int| 0 <= i < readings.len() && #[trigger] readings[i].0 == id;
                    if i < n {
                        assert(init[i].0 == id);
                        assert(reads_id(init, id));
                        assert(holds_id(w0, id));
                        let k = choose|k: int| 0 <= k < w0.len() && #[trigger] w0[k].id == id;
                        assert(w[k].id == id);
                    } else {
                        assert(w[w0.len() as int].id == id);
                    }
                }
            }
            assert forall|k: int|
                0 <= k < w.len() && #[trigger] w[k].strength > i8::MIN implies (exists|i: int|
                    0 <= i < readings.len() && #[trigger] readings[i] == (w[k].id, w[k].antenna, w[k].strength)) by {
                if k < w0.len() {
                    assert(w[k] == w0[k]);
                    let i = choose|i: int|
                        0 <= i < init.len() && #[trigger] init[i] == (w0[k].id, w0[k].antenna, w0[k].strength);
                    assert(readings[i] == init[i]);
                } else {
                    assert(readings[n] == (w[k].id, w[k].antenna, w[k].strength));
                }
            }
            assert forall|k: int, i: int|
                0 <= k < w.len() && 0 <= i < readings.len() && #[trigger] readings[i].0 == #[trigger] w[k].id
                implies readings[i].2 <= w[k].strength by {
                if i < n {
                    assert(init[i].0 == readings[i].0);
                    if k < w0.len() {
                        assert(w[k] == w0[k]);
                        assert(init[i].2 <= w0[k].strength);
                    } else {
                        assert(reads_id(init, init[i].0));
                        assert(holds_id(w0, init[i].0));
                        let kk = choose|kk: int| 0 <= kk < w0.len() && #[trigger] w0[kk].id == init[i].0;
                        assert(w0[kk].id == r.0);
                    }
                } else {
                    assert(readings[i] == r);
                    if k < w0.len() {
                        assert(w0[k].id == r.0);
                    }
                }
            }
        }
    }
}

/// The strongest reading per id within the current time window.
#[derive(Debug)]
pub struct ReadingWindow {
    tags: Vec<Tag>,
}

impl View for ReadingWindow {
    type V = Seq<LineTagView>;

    closed spec fn view(&self) -> Seq<LineTagView> {
        line_views(self.tags@)
    }
}

impl ReadingWindow {
    /// An empty window.
    pub fn new() -> (r: ReadingWindow)
        ensures
            r@ == Seq::<LineTagView>::empty(),
    {
        let r = ReadingWindow { tags: Vec::new() };
        assert(r@ =~= Seq::<LineTagView>::empty());
        r
    }

    /// Records one reading (see [`recorded`]).
    pub fn record(&mut self, id: String, antenna: u8, strength: i8)
        requires
            distinct_ids(old(self)@),
        ensures
            final(self)@ == recorded(old(self)@, id@, antenna, strength),
            distinct_ids(final(self)@),
    {
        let n = self.tags.len();
        let mut k: usize = 0;
        while k < n
            invariant
                n == self@.len(),
                k <= n,
                self@ == old(self)@,
                distinct_ids(self@),
                forall|q: int| 0 <= q < k ==> self@[q].id != id@,
            decreases n - k,
        {
            if str_equal(self.tags[k].id.as_str(), id.as_str()) {
                proof {
                    assert(self@[k as int].id == id@);
                    let c = choose|c: int| 0 <= c < self@.len() && (#[trigger] self@[c]).id == id@;
                    if c != k {
                        assert(self@[c].id != self@[k as int].id);
                    }
                }
                if strength > self.tags[k].strength {
                    let ghost before = self@;
                    self.tags.set(k, Tag { id, strength, antenna });
                    assert(self@ =~= before.update(
                        k as int,
                        LineTagView { id: before[k as int].id, strength, antenna },
                    ));
                }
                return ;
            }
            k = k + 1;
        }
        let ghost before = self@;
        if strength > i8::MIN {
            self.tags.push(Tag { id, strength, antenna });
        } else {
            self.tags.push(Tag { id, strength: i8::MIN, antenna: 0 });
        }
        assert(self@ =~= recorded(before, id@, antenna, strength));
    }

    /// Hands out the window's readings and starts an empty window.
    pub fn take_batch(&mut self) -> (r: Vec<Tag>)
        ensures
            line_views(r@) == old(self)@,
            final(self)@ == Seq::<LineTagView>::empty(),
    {
        let mut batch: Vec<Tag> = Vec::new();
        std::mem::swap(&mut batch, &mut self.tags);
        assert(self@ =~= Seq::<LineTagView>::empty());
        batch
    }

    /// Handles one line of the reader program. A line without three fields
    /// is skipped. Once the window has elapsed, the line's reading is not
    /// recorded: the window's readings are handed out instead and a new
    /// window starts.
    pub fn handle_line(&mut self, line: &str, window_elapsed: bool) -> (r: Option<Vec<Tag>>)
        requires
            distinct_ids(old(self)@),
        ensures
            distinct_ids(final(self)@),
            split_fields(line.spec_bytes()).len() != 3 ==> r is None && final(self)@ == old(
                self,
            )@,
            split_fields(line.spec_bytes()).len() == 3 && window_elapsed ==> (r matches Some(batch)
                && line_views(batch@) == old(self)@) && final(self)@ == Seq::<LineTagView>::empty(),
            split_fields(line.spec_bytes()).len() == 3 && !window_elapsed ==> r is None && {
                let fields = split_fields(line.spec_bytes());
                exists|id: Seq<char>|
                    encode_utf8(id) == fields[0] && final(self)@ == recorded(
                        old(self)@,
                        id,
                        u8_or_zero(fields[1]),
                        i8_or_zero(fields[2]),
                    )
            },
    {
        match parse_reading_line(line) {
            None => None,
            Some((id, antenna, strength)) => {
                if window_elapsed {
                    let batch = self.take_batch();
                    Some(batch)
                } else {
                    let ghost id_view = id@;
                    self.record(id, antenna, strength);
                    None
                }
            },
        }
    }
}

} // verus!
