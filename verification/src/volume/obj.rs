//! Surface meshes: preparing their files, combining the layers around them, and the colours of
//! their outlines.

use crate::text::{chars_of, find_chars, find_from, matches_at, occurs_at, string_of, sub_chars};
use crate::volume::draw::{line, on_line, point};
use crate::volume::image::{Color32, Image};
use vstd::prelude::*;

verus! {

/// How the flattened image of a mesh is made: from its texture coordinates, or by looking at it
/// from the side.
#[derive(Clone, Copy, PartialEq, Eq, Structural)]
pub enum ProjectionKind {
    NoProjection,
    OrthographicXZ,
}

/// A line without the carriage return at its end.
pub open spec fn without_cr(line: Seq<char>) -> Seq<char> {
    if line.len() > 0 && line.last() == '\r' {
        line.drop_last()
    } else {
        line
    }
}

/// The lines of a text. The last one need not end with a line feed; a carriage return before a
/// line feed belongs to the line's end.
pub open spec fn lines_of(s: Seq<char>) -> Seq<Seq<char>>
    decreases s.len(),
{
    match find_from(s, seq!['\n'], 0) {
        Some(i) => if 0 <= i < s.len() {
            seq![without_cr(s.take(i))] + lines_of(s.skip(i + 1))
        } else {
            Seq::empty()
        },
        None => if s.len() == 0 {
            Seq::empty()
        } else {
            seq![s]
        },
    }
}

/// The line starts with the word.
pub open spec fn starts_with(line: Seq<char>, word: Seq<char>) -> bool {
    occurs_at(line, word, 0)
}

/// The line is kept: it does not speak of materials.
pub open spec fn is_kept(line: Seq<char>) -> bool {
    !starts_with(line, "mtllib"@) && !starts_with(line, "usemtl"@)
}

/// The kept lines that describe a face, or those that do not.
pub open spec fn kept_lines(lines: Seq<Seq<char>>, faces: bool) -> Seq<Seq<char>>
    decreases lines.len(),
{
    if lines.len() == 0 {
        Seq::empty()
    } else {
        let rest = kept_lines(lines.drop_last(), faces);
        if is_kept(lines.last()) && starts_with(lines.last(), "f"@) == faces {
            rest.push(lines.last())
        } else {
            rest
        }
    }
}

/// The lines with line feeds between them.
pub open spec fn with_line_feeds(lines: Seq<Seq<char>>) -> Seq<char>
    decreases lines.len(),
{
    if lines.len() == 0 {
        Seq::empty()
    } else if lines.len() == 1 {
        lines[0]
    } else {
        with_line_feeds(lines.drop_last()).push('\n') + lines.last()
    }
}

/// The text of a mesh without materials, and with its faces behind everything else.
pub open spec fn prepared(text: Seq<char>) -> Seq<char> {
    let lines = lines_of(text);
    with_line_feeds(kept_lines(lines, false) + kept_lines(lines, true))
}

pub open spec fn texts(lines: Seq<Vec<char>>) -> Seq<Seq<char>> {
    lines.map_values(|l: Vec<char>| l@)
}

fn split_lines(s: &[char]) -> (r: Vec<Vec<char>>)
    ensures
        texts(r@) == lines_of(s@),
{
    let line_feed: [char; 1] = ['\n'];
    assert(line_feed@ =~= seq!['\n']);
    let mut r: Vec<Vec<char>> = Vec::new();
    let mut start: usize = 0;
    assert(s@.skip(0) =~= s@);
    assert(texts(r@) =~= Seq::<Seq<char>>::empty());
    while start < s.len()
        invariant
            line_feed@ == seq!['\n'],
            start <= s@.len(),
            texts(r@) + lines_of(s@.skip(start as int)) == lines_of(s@),
        decreases s@.len() - start,
    {
        let rest = sub_chars(s, start, s.len());
        assert(rest@ =~= s@.skip(start as int));
        let ghost before = texts(r@);
        match find_chars(&rest, &line_feed, 0) {
            Some(i) => {
                assert(rest@.subrange(i as int, i + 1)[0] == '\n');
                let mut end: usize = i;
                if i > 0 && rest[i - 1] == '\r' {
                    end = i - 1;
                }
                let line = sub_chars(&rest, 0, end);
                proof {
                    assert(line@ =~= without_cr(rest@.take(i as int)));
                    assert(rest@.skip(i + 1) =~= s@.skip(start + i + 1));
                }
                r.push(line);
                proof {
                    assert(texts(r@) =~= before.push(line@));
                    assert(before + (seq![line@] + lines_of(s@.skip(start + i + 1))) =~= before.push(
                        line@,
                    ) + lines_of(s@.skip(start + i + 1)));
                }
                start = start + i + 1;
            },
            None => {
                r.push(rest);
                proof {
                    assert(texts(r@) =~= before.push(s@.skip(start as int)));
                    assert(s@.skip(s@.len() as int) =~= Seq::<char>::empty());
                    assert(find_from(Seq::<char>::empty(), seq!['\n'], 0) is None);
                    assert(lines_of(s@.skip(start as int)) =~= seq![s@.skip(start as int)]);
                    assert(texts(r@) + lines_of(s@.skip(s@.len() as int)) =~= before + seq![
                        s@.skip(start as int),
                    ]);
                }
                start = s.len();
            },
        }
    }
    proof {
        assert(s@.skip(start as int) =~= Seq::<char>::empty());
        assert(find_from(Seq::<char>::empty(), seq!['\n'], 0) is None);
        assert(lines_of(s@.skip(start as int)) =~= Seq::<Seq<char>>::empty());
        assert(texts(r@) + lines_of(s@.skip(start as int)) =~= texts(r@));
    }
    r
}

/// Adds the kept lines that describe a face, or those that do not, to a text.
fn add_kept(lines: &Vec<Vec<char>>, faces: bool, r: &mut Vec<char>, first: &mut bool, Ghost(done): Ghost<Seq<Seq<char>>>)
    requires
        old(r)@ == with_line_feeds(done),
        *old(first) == (done.len() == 0),
    ensures
        final(r)@ == with_line_feeds(done + kept_lines(texts(lines@), faces)),
        *final(first) == ((done + kept_lines(texts(lines@), faces)).len() == 0),
{
    let mtllib = chars_of("mtllib");
    let usemtl = chars_of("usemtl");
    let face = chars_of("f");
    let mut i: usize = 0;
    assert(done + kept_lines(texts(lines@).take(0), faces) =~= done);
    while i < lines.len()
        invariant
            mtllib@ == "mtllib"@ && usemtl@ == "usemtl"@ && face@ == "f"@,
            i <= lines@.len(),
            r@ == with_line_feeds(done + kept_lines(texts(lines@).take(i as int), faces)),
            *first == ((done + kept_lines(texts(lines@).take(i as int), faces)).len() == 0),
        decreases lines@.len() - i,
    {
        let ghost all = texts(lines@);
        let l: &Vec<char> = &lines[i];
        proof {
            assert(all.take(i + 1).drop_last() =~= all.take(i as int));
            assert(all.take(i + 1).last() == l@);
        }
        let ghost so_far = done + kept_lines(all.take(i as int), faces);
        if !matches_at(l, &mtllib, 0) && !matches_at(l, &usemtl, 0) && matches_at(l, &face, 0) == faces {
            let ghost before = r@;
            if !*first {
                r.push('\n');
            }
            let ghost start = r@;
            let mut k: usize = 0;
            assert(start + l@.take(0) =~= start);
            while k < l.len()
                invariant
                    k <= l@.len(),
                    r@ == start + l@.take(k as int),
                decreases l@.len() - k,
            {
                r.push(l[k]);
                assert(start + l@.take(k + 1) =~= (start + l@.take(k as int)).push(l@[k as int]));
                k += 1;
            }
            *first = false;
            proof {
                assert(l@.take(k as int) =~= l@);
                let next = so_far.push(l@);
                assert(done + kept_lines(all.take(i + 1), faces) =~= next);
                assert(next.drop_last() =~= so_far);
                if so_far.len() == 0 {
                    assert(before =~= Seq::<char>::empty());
                    assert(r@ =~= l@);
                }
            }
        }
        i += 1;
    }
    assert(texts(lines@).take(i as int) =~= texts(lines@));
}

/// Computes [`prepared`].
pub fn prepare_obj(text: &str) -> (r: String)
    ensures
        r@ == prepared(text@),
{
    let chars = chars_of(text);
    let lines = split_lines(&chars);
    let mut r: Vec<char> = Vec::new();
    let mut first = true;
    let ghost none = Seq::<Seq<char>>::empty();
    add_kept(&lines, false, &mut r, &mut first, Ghost(none));
    let ghost not_faces = kept_lines(texts(lines@), false);
    assert(none + not_faces =~= not_faces);
    add_kept(&lines, true, &mut r, &mut first, Ghost(not_faces));
    string_of(&r)
}

/// A word at the start of a line is a prefix of the line.
proof fn lemma_starts_with(line: Seq<char>, word: Seq<char>)
    ensures
        starts_with(line, word) <==> word.is_prefix_of(line),
{
    if word.len() <= line.len() {
        assert(line.subrange(0, word.len() as int) =~= line.take(word.len() as int));
    }
}

/// The line speaks of materials.
pub open spec fn of_materials(line: Seq<char>) -> bool {
    "mtllib"@.is_prefix_of(line) || "usemtl"@.is_prefix_of(line)
}

/// The line describes a face.
pub open spec fn of_a_face(line: Seq<char>) -> bool {
    "f"@.is_prefix_of(line)
}

/// The kept lines of a kind are picked from the lines of the file.
proof fn lemma_kept_lines(lines: Seq<Seq<char>>, faces: bool)
    ensures
        kept_lines(lines, faces) == lines.filter(
            |l: Seq<char>| !of_materials(l) && of_a_face(l) == faces,
        ),
    decreases lines.len(),
{
    reveal(Seq::filter);
    let pick = |l: Seq<char>| !of_materials(l) && of_a_face(l) == faces;
    if lines.len() > 0 {
        let last = lines.last();
        lemma_kept_lines(lines.drop_last(), faces);
        lemma_starts_with(last, "mtllib"@);
        lemma_starts_with(last, "usemtl"@);
        lemma_starts_with(last, "f"@);
        assert(pick(last) == (is_kept(last) && starts_with(last, "f"@) == faces));
    } else {
        assert(kept_lines(lines, faces) =~= lines.filter(pick));
    }
}

/// Picked lines are picked again from themselves, or not at all.
proof fn lemma_pick_again(
    lines: Seq<Seq<char>>,
    pick: spec_fn(Seq<char>) -> bool,
    again: spec_fn(Seq<char>) -> bool,
)
    ensures
        (forall|l: Seq<char>| #[trigger] pick(l) ==> again(l)) ==> lines.filter(pick).filter(again)
            == lines.filter(pick),
        (forall|l: Seq<char>| #[trigger] pick(l) ==> !again(l)) ==> lines.filter(pick).filter(again)
            == Seq::<Seq<char>>::empty(),
        forall|i: int| 0 <= i < lines.filter(pick).len() ==> pick(#[trigger] lines.filter(pick)[i]),
    decreases lines.len(),
{
    reveal(Seq::filter);
    if lines.len() > 0 {
        let rest = lines.drop_last().filter(pick);
        lemma_pick_again(lines.drop_last(), pick, again);
        if pick(lines.last()) {
            assert(lines.filter(pick) == rest.push(lines.last()));
            assert(rest.push(lines.last()).drop_last() =~= rest);
            assert(rest.push(lines.last()).last() == lines.last());
        }
    }
}

/// Picking from two lists one after the other picks from both.
proof fn lemma_pick_from_both(a: Seq<Seq<char>>, b: Seq<Seq<char>>, pick: spec_fn(Seq<char>) -> bool)
    ensures
        (a + b).filter(pick) == a.filter(pick) + b.filter(pick),
    decreases b.len(),
{
    reveal(Seq::filter);
    if b.len() == 0 {
        assert(a + b =~= a);
        assert(a.filter(pick) + b.filter(pick) =~= a.filter(pick));
    } else {
        lemma_pick_from_both(a, b.drop_last(), pick);
        assert((a + b).drop_last() =~= a + b.drop_last());
        assert((a + b).last() == b.last());
        assert((a + b).filter(pick) =~= a.filter(pick) + b.filter(pick));
    }
}

/// Lines of two kinds are together as many as there are.
proof fn lemma_two_kinds(
    lines: Seq<Seq<char>>,
    pick: spec_fn(Seq<char>) -> bool,
    one: spec_fn(Seq<char>) -> bool,
    other: spec_fn(Seq<char>) -> bool,
)
    requires
        forall|l: Seq<char>| #[trigger] pick(l) == (one(l) || other(l)) && !(one(l) && other(l)),
    ensures
        (lines.filter(one) + lines.filter(other)).to_multiset() =~= lines.filter(pick).to_multiset(),
    decreases lines.len(),
{
    broadcast use vstd::seq_lib::group_to_multiset_ensures;

    reveal(Seq::filter);
    let (a, b) = (lines.filter(one), lines.filter(other));
    vstd::seq_lib::lemma_multiset_commutative(a, b);
    if lines.len() > 0 {
        let rest = lines.drop_last();
        lemma_two_kinds(rest, pick, one, other);
        vstd::seq_lib::lemma_multiset_commutative(rest.filter(one), rest.filter(other));
        assert(pick(lines.last()) == (one(lines.last()) || other(lines.last())));
    } else {
        assert(a + b =~= lines.filter(pick));
    }
}

/// What preparing does to a mesh. Its lines are, each as often, the lines of the file that do not
/// start with `mtllib` or `usemtl`. Every line that starts with `f` stands behind every line that
/// does not, and lines of the same kind keep their order.
pub proof fn prepared_meshes_keep_their_lines(text: Seq<char>)
    ensures
        exists|lines: Seq<Seq<char>>|
            {
                &&& prepared(text) == #[trigger] with_line_feeds(lines)
                &&& lines.to_multiset() == lines_of(text).filter(
                    |l: Seq<char>| !of_materials(l),
                ).to_multiset()
                &&& forall|i: int, j: int|
                    0 <= i < j < lines.len() && of_a_face(#[trigger] lines[i]) ==> of_a_face(
                        #[trigger] lines[j],
                    )
                &&& lines.filter(|l: Seq<char>| of_a_face(l)) == lines_of(text).filter(
                    |l: Seq<char>| !of_materials(l) && of_a_face(l),
                )
                &&& lines.filter(|l: Seq<char>| !of_a_face(l)) == lines_of(text).filter(
                    |l: Seq<char>| !of_materials(l) && !of_a_face(l),
                )
            },
{
    let all = lines_of(text);
    let kept = |l: Seq<char>| !of_materials(l);
    let face = |l: Seq<char>| of_a_face(l);
    let other = |l: Seq<char>| !of_a_face(l);
    let kept_face = |l: Seq<char>| !of_materials(l) && of_a_face(l);
    let kept_other = |l: Seq<char>| !of_materials(l) && !of_a_face(l);
    let (a, b) = (kept_lines(all, false), kept_lines(all, true));
    lemma_kept_lines(all, false);
    lemma_kept_lines(all, true);
    assert((|l: Seq<char>| !of_materials(l) && of_a_face(l) == false) =~= kept_other);
    assert((|l: Seq<char>| !of_materials(l) && of_a_face(l) == true) =~= kept_face);
    let lines = a + b;
    assert(prepared(text) == with_line_feeds(lines));
    lemma_two_kinds(all, kept, kept_other, kept_face);
    lemma_pick_again(all, kept_other, face);
    lemma_pick_again(all, kept_other, other);
    lemma_pick_again(all, kept_face, face);
    lemma_pick_again(all, kept_face, other);
    lemma_pick_from_both(a, b, face);
    lemma_pick_from_both(a, b, other);
    assert(Seq::<Seq<char>>::empty() + b =~= b);
    assert(a + Seq::<Seq<char>>::empty() =~= a);
    assert forall|i: int, j: int|
        0 <= i < j < lines.len() && of_a_face(#[trigger] lines[i]) implies of_a_face(
        #[trigger] lines[j],
    ) by {
        if i < a.len() {
            assert(kept_other(all.filter(kept_other)[i]));
        }
        assert(kept_face(all.filter(kept_face)[j - a.len()]));
    }
}

/// Combines the values of the layers around a surface into one.
pub trait CompositionState: Sized {
    /// What it is before the first value.
    spec fn fresh(&self) -> Self;

    /// What it is after one more value.
    spec fn after(&self, a: u8) -> Self;

    /// More values are needed after this one.
    spec fn goes_on(&self, a: u8) -> bool;

    /// What the values so far come to, out of a number of layers.
    spec fn outcome(&self, num_layers: u32) -> u8;

    /// Takes the next value; `false` if no more are needed.
    fn update(&mut self, a: u8) -> (more: bool)
        ensures
            *final(self) == old(self).after(a),
            more == old(self).goes_on(a),
    ;

    fn result(&self, num_layers: u32) -> (r: u8)
        ensures
            r == self.outcome(num_layers),
    ;

    fn reset(&mut self)
        ensures
            *final(self) == old(self).fresh(),
    ;
}

/// The greatest value.
#[derive(Clone, Copy, PartialEq, Eq, Structural)]
pub struct MaxCompositionState {
    pub value: u8,
}

impl MaxCompositionState {
    pub fn new() -> (r: MaxCompositionState)
        ensures
            r.value == 0,
    {
        MaxCompositionState { value: 0 }
    }
}

impl CompositionState for MaxCompositionState {
    open spec fn fresh(&self) -> Self {
        MaxCompositionState { value: 0 }
    }

    open spec fn after(&self, a: u8) -> Self {
        if a > self.value {
            MaxCompositionState { value: a }
        } else {
            *self
        }
    }

    open spec fn goes_on(&self, a: u8) -> bool {
        true
    }

    open spec fn outcome(&self, num_layers: u32) -> u8 {
        self.value
    }

    fn update(&mut self, a: u8) -> (more: bool) {
        if a > self.value {
            self.value = a;
        }
        true
    }

    fn result(&self, num_layers: u32) -> (r: u8) {
        self.value
    }

    fn reset(&mut self) {
        self.value = 0;
    }
}

/// No value at all.
#[derive(Clone, Copy, PartialEq, Eq, Structural)]
pub struct NoCompositionState;

impl CompositionState for NoCompositionState {
    open spec fn fresh(&self) -> Self {
        *self
    }

    open spec fn after(&self, a: u8) -> Self {
        *self
    }

    open spec fn goes_on(&self, a: u8) -> bool {
        false
    }

    open spec fn outcome(&self, num_layers: u32) -> u8 {
        0
    }

    fn update(&mut self, a: u8) -> (more: bool) {
        false
    }

    fn result(&self, num_layers: u32) -> (r: u8) {
        0
    }

    fn reset(&mut self) {
    }
}

/// The state after the values from place `i` on, as far as they are needed.
pub open spec fn taken<S: CompositionState>(state: S, values: Seq<u8>, i: int) -> S
    decreases values.len() - i,
{
    if i >= values.len() {
        state
    } else if state.goes_on(values[i]) {
        taken(state.after(values[i]), values, i + 1)
    } else {
        state.after(values[i])
    }
}

/// Combines the values of the layers of one surface point.
pub fn combine<S: CompositionState>(state: &mut S, values: &[u8]) -> (r: u8)
    requires
        values@.len() <= u32::MAX,
    ensures
        *final(state) == taken(old(state).fresh(), values@, 0),
        r == taken(old(state).fresh(), values@, 0).outcome(values@.len() as u32),
{
    state.reset();
    let ghost start = *state;
    let mut i: usize = 0;
    let mut more = true;
    while more && i < values.len()
        invariant
            i <= values@.len(),
            taken(start, values@, 0) == (if more {
                taken(*state, values@, i as int)
            } else {
                *state
            }),
        decreases values@.len() - i,
    {
        more = state.update(values[i]);
        i += 1;
    }
    let r: u8 = state.result(values.len() as u32);
    r
}

/// Of the values of the layers the greatest is shown.
pub proof fn greatest_layer_is_shown(values: Seq<u8>, k: int)
    requires
        0 <= k < values.len(),
    ensures
        taken(MaxCompositionState { value: 0 }, values, 0).value >= values[k],
        exists|i: int|
            0 <= i < values.len() && #[trigger] values[i] == taken(
                MaxCompositionState { value: 0 },
                values,
                0,
            ).value,
{
    lemma_greatest(MaxCompositionState { value: 0 }, values, 0);
    let greatest = taken(MaxCompositionState { value: 0 }, values, 0).value;
    if !exists|i: int| 0 <= i < values.len() && #[trigger] values[i] == greatest {
        assert(greatest == 0);
        assert(values[k] == greatest);
    }
}

proof fn lemma_greatest(state: MaxCompositionState, values: Seq<u8>, i: int)
    requires
        0 <= i <= values.len(),
    ensures
        taken(state, values, i).value >= state.value,
        forall|k: int| i <= k < values.len() ==> taken(state, values, i).value >= #[trigger] values[k],
        taken(state, values, i).value == state.value || exists|k: int|
            i <= k < values.len() && #[trigger] values[k] == taken(state, values, i).value,
    decreases values.len() - i,
{
    if i < values.len() {
        lemma_greatest(state.after(values[i]), values, i + 1);
    }
}

/// The layers that are combined for a surface point: from `in_front` layers before `plane` to
/// `behind` layers after it, in the order in which they are looked at.
pub fn composite_layers(plane: i32, in_front: u8, behind: u8, reverse: bool) -> (layers: Vec<i64>)
    ensures
        layers@.len() == in_front + behind + 1,
        forall|k: int|
            0 <= k < layers@.len() ==> #[trigger] layers@[k] == (if reverse {
                plane - (in_front - k)
            } else {
                plane + (in_front - k)
            }),
{
    let start: i64 = if reverse {
        plane as i64 - in_front as i64
    } else {
        plane as i64 + in_front as i64
    };
    let end: i64 = if reverse {
        plane as i64 + (behind as i64 + 1)
    } else {
        plane as i64 - (behind as i64 + 1)
    };
    let step: i64 = if start < end {
        1
    } else {
        -1
    };
    let mut layers: Vec<i64> = Vec::new();
    let mut w: i64 = start;
    while w != end
        invariant
            step == (if reverse {
                1int
            } else {
                -1
            }),
            start == (if reverse {
                plane - in_front
            } else {
                plane + in_front
            }),
            end == (if reverse {
                plane + behind + 1
            } else {
                plane - behind - 1
            }),
            w == (if reverse {
                start + layers@.len()
            } else {
                start - layers@.len()
            }),
            layers@.len() <= in_front + behind + 1,
            forall|k: int|
                0 <= k < layers@.len() ==> #[trigger] layers@[k] == (if reverse {
                    plane - (in_front - k)
                } else {
                    plane + (in_front - k)
                }),
        decreases in_front + behind + 1 - layers@.len(),
    {
        layers.push(w);
        w = w + step;
    }
    layers
}

/// The colour of a surface point that is close to the current point in one of the coordinates.
pub open spec fn outline_of(near_x: bool, near_y: bool, near_z: bool) -> Option<Color32> {
    if near_x {
        Some(Color32::rgb(0, 0, 255))
    } else if near_y {
        Some(Color32::rgb(255, 0, 0))
    } else if near_z {
        Some(Color32::rgb(0, 255, 0))
    } else {
        None
    }
}

/// Computes [`outline_of`].
pub fn outline_color(near_x: bool, near_y: bool, near_z: bool) -> (r: Option<Color32>)
    ensures
        r == outline_of(near_x, near_y, near_z),
{
    if near_x {
        Some(Color32::from_rgb(0, 0, 255))
    } else if near_y {
        Some(Color32::from_rgb(255, 0, 0))
    } else if near_z {
        Some(Color32::from_rgb(0, 255, 0))
    } else {
        None
    }
}

/// Paints a surface point: its outline colour if it has one, else its value.
pub fn paint_surface_point(buffer: &mut Image, x: usize, y: usize, value: u8, outline: Option<Color32>)
    requires
        old(buffer).valid(),
        old(buffer).inside(x as int, y as int),
    ensures
        old(buffer).with_pixel(
            x as int,
            y as int,
            (match outline {
                Some(c) => c,
                None => Color32::gray(value),
            }),
            *final(buffer),
        ),
{
    match outline {
        Some(c) => buffer.set(x, y, c),
        None => buffer.set_gray(x, y, value),
    }
}

/// The colour of the outline that a surface leaves on a plane.
pub open spec fn intersection_color(highlight: bool) -> Color32 {
    if highlight {
        Color32::rgb(0xff, 0xaa, 0)
    } else {
        Color32::rgb(0xff, 0, 0xff)
    }
}

/// The colour of the ends of the outline's pieces.
pub open spec fn vertex_color(highlight: bool) -> Color32 {
    if highlight {
        Color32::rgb(0, 0xff, 0)
    } else {
        Color32::rgb(0, 0, 0xff)
    }
}

/// The pixel belongs to the mark at an end of a piece.
pub open spec fn in_mark(x0: int, y0: int, x: int, y: int) -> bool {
    x0 - 2 <= x < x0 + 2 && y0 - 2 <= y < y0 + 2
}

/// A plane crosses a side of a triangle, given which corners do not lie below the plane. Side `i`
/// goes from corner `i` to the next one.
pub open spec fn crosses(above: Seq<bool>, i: int) -> bool {
    above[i] != above[(i + 1) % 3]
}

/// The two sides of a triangle that a plane crosses, if it crosses any.
pub fn crossed_sides(above: [bool; 3]) -> (r: Option<(usize, usize)>)
    ensures
        match r {
            Some((a, b)) => {
                &&& a < b < 3
                &&& forall|i: int| 0 <= i < 3 ==> (#[trigger] crosses(above@, i) <==> i == a || i == b)
            },
            None => forall|i: int| 0 <= i < 3 ==> !#[trigger] crosses(above@, i),
        },
{
    if above[0] != above[1] {
        if above[1] != above[2] {
            Some((0, 1))
        } else {
            Some((0, 2))
        }
    } else if above[1] != above[2] {
        Some((1, 2))
    } else {
        None
    }
}

/// Draws one piece of the outline that a surface leaves on a plane.
pub fn draw_intersection(
    x0: i32,
    y0: i32,
    x1: i32,
    y1: i32,
    highlight: bool,
    draw_outline_vertices: bool,
    width: usize,
    height: usize,
    image: &mut Image,
)
    requires
        old(image).valid(),
        width <= old(image).width,
        height <= old(image).height,
    ensures
        old(image).same_size(*final(image)),
        forall|x: int, y: int|
            old(image).inside(x, y) ==> #[trigger] final(image).pixel(x, y) == (
            if draw_outline_vertices && (in_mark(x0 as int, y0 as int, x, y) || in_mark(
                x1 as int,
                y1 as int,
                x,
                y,
            )) {
                vertex_color(highlight)
            } else if x < width && y < height && on_line(
                x0 as int,
                y0 as int,
                x1 as int,
                y1 as int,
                x,
                y,
            ) {
                intersection_color(highlight)
            } else {
                old(image).pixel(x, y)
            }),
{
    let ghost before = *image;
    if highlight {
        line(x0, y0, x1, y1, image, width, height, 0xff, 0xaa, 0);
    } else {
        line(x0, y0, x1, y1, image, width, height, 0xff, 0, 0xff);
    }
    let ghost drawn = *image;
    if draw_outline_vertices {
        let (r, g, b): (u8, u8, u8) = if highlight {
            (0, 0xff, 0)
        } else {
            (0, 0, 0xff)
        };
        point(x0, y0, image, 4, r, g, b);
        let ghost marked = *image;
        point(x1, y1, image, 4, r, g, b);
        proof {
            assert forall|x: int, y: int| before.inside(x, y) implies #[trigger] image.pixel(x, y) == (
            if in_mark(x0 as int, y0 as int, x, y) || in_mark(x1 as int, y1 as int, x, y) {
                vertex_color(highlight)
            } else {
                drawn.pixel(x, y)
            }) by {
                assert(marked.inside(x, y));
                let m = marked.pixel(x, y);
            }
            assert forall|x: int, y: int| before.inside(x, y) implies #[trigger] image.pixel(x, y) == (
            if in_mark(x0 as int, y0 as int, x, y) || in_mark(x1 as int, y1 as int, x, y) {
                vertex_color(highlight)
            } else if x < width && y < height && on_line(
                x0 as int,
                y0 as int,
                x1 as int,
                y1 as int,
                x,
                y,
            ) {
                intersection_color(highlight)
            } else {
                before.pixel(x, y)
            }) by {
                let d = drawn.pixel(x, y);
            }
        }
    }
}

/// A line ends at the next line feed, and a carriage return before it belongs to the line's end. The
/// last line need not have one.
pub proof fn lines_end_at_line_feeds(line: Seq<char>, rest: Seq<char>)
    requires
        forall|i: int| 0 <= i < line.len() ==> #[trigger] line[i] != '\n',
    ensures
        lines_of(line.push('\r').push('\n') + rest) == seq![line] + lines_of(rest),
        line.len() == 0 || line.last() != '\r' ==> lines_of(line.push('\n') + rest) == seq![line]
            + lines_of(rest),
        line.len() > 0 ==> lines_of(line) == seq![line],
        lines_of(Seq::empty()) == Seq::<Seq<char>>::empty(),
{
    let feed = seq!['\n'];
    let with_cr = line.push('\r');
    lemma_first_line_feed(line, rest);
    lemma_first_line_feed(with_cr, rest);
    let n = line.len() as int;
    let one = line.push('\n') + rest;
    let two = with_cr.push('\n') + rest;
    assert(one.take(n) =~= line && one.skip(n + 1) =~= rest);
    assert(two.take(n + 1) =~= with_cr && two.skip(n + 2) =~= rest);
    assert(with_cr.drop_last() =~= line);
    assert forall|i: int| 0 <= i implies !#[trigger] occurs_at(line, feed, i) by {
        if i < line.len() {
            assert(line.subrange(i, i + 1)[0] == line[i]);
        }
    }
    crate::text::nothing_is_found_elsewhere(line, feed, 0);
    let none = Seq::<char>::empty();
    assert forall|i: int| 0 <= i implies !#[trigger] occurs_at(none, feed, i) by {}
    crate::text::nothing_is_found_elsewhere(none, feed, 0);
}

proof fn lemma_first_line_feed(line: Seq<char>, rest: Seq<char>)
    requires
        forall|i: int| 0 <= i < line.len() ==> #[trigger] line[i] != '\n',
    ensures
        find_from(line.push('\n') + rest, seq!['\n'], 0) == Some(line.len() as int),
{
    let feed = seq!['\n'];
    let s = line.push('\n') + rest;
    let n = line.len() as int;
    assert(s.subrange(n, n + 1) =~= feed);
    assert(occurs_at(s, feed, n));
    crate::text::first_places_are_found(s, feed, 0, n);
    let found = find_from(s, feed, 0)->0;
    if found < n {
        assert(s.subrange(found, found + 1)[0] == line[found]);
    }
}

/// Between two lines there is one line feed, and none behind the last.
pub proof fn line_feeds_stand_between(a: Seq<Seq<char>>, b: Seq<Seq<char>>, line: Seq<char>)
    requires
        a.len() > 0,
        b.len() > 0,
    ensures
        with_line_feeds(seq![line]) == line,
        with_line_feeds(a + b) == with_line_feeds(a) + seq!['\n'] + with_line_feeds(b),
    decreases b.len(),
{
    let all = a + b;
    if b.len() == 1 {
        assert(all.drop_last() =~= a);
        assert(with_line_feeds(all) =~= with_line_feeds(a) + seq!['\n'] + with_line_feeds(b));
    } else {
        line_feeds_stand_between(a, b.drop_last(), line);
        assert(all.drop_last() =~= a + b.drop_last());
        assert(with_line_feeds(all) =~= with_line_feeds(a) + seq!['\n'] + with_line_feeds(b));
    }
}

/// A composition begins anew with each point: it starts at zero, and what it shows is its value.
/// Without composition nothing is shown.
pub proof fn compositions_begin_anew(
    state: MaxCompositionState,
    none: NoCompositionState,
    values: Seq<u8>,
    num_layers: u32,
)
    ensures
        state.fresh() == (MaxCompositionState { value: 0 }),
        state.outcome(num_layers) == state.value,
        taken(state.fresh(), values, 0).outcome(num_layers) == taken(
            MaxCompositionState { value: 0 },
            values,
            0,
        ).value,
        values.len() == 0 ==> taken(state.fresh(), values, 0).outcome(num_layers) == 0,
        taken(none.fresh(), values, 0).outcome(num_layers) == 0,
{
}

/// A point that is near in x is blue, one that is near in y but not in x is red, and one that is
/// near in z alone is green.
pub proof fn outlines_have_the_color_of_their_axis(near_x: bool, near_y: bool, near_z: bool)
    ensures
        outline_of(near_x, near_y, near_z) is Some <==> near_x || near_y || near_z,
        outline_of(near_x, near_y, near_z) matches Some(c) ==> {
            &&& c.b == (if near_x { 255u8 } else { 0 })
            &&& c.r == (if near_y && !near_x { 255u8 } else { 0 })
            &&& c.g == (if near_x || near_y { 0u8 } else { 255 })
            &&& c.a == 255
        },
{
}

/// The outline of a surface is orange with green ends if it is highlighted, and purple with blue ends
/// otherwise.
pub proof fn intersections_have_their_colors(highlight: bool)
    ensures
        intersection_color(highlight).r == 255,
        intersection_color(highlight).g == (if highlight { 170u8 } else { 0 }),
        intersection_color(highlight).b == (if highlight { 0u8 } else { 255 }),
        intersection_color(highlight).a == 255,
        vertex_color(highlight).r == 0,
        vertex_color(highlight).g == (if highlight { 255u8 } else { 0 }),
        vertex_color(highlight).b == (if highlight { 0u8 } else { 255 }),
        vertex_color(highlight).a == 255,
{
}

/// A mark is four pixels wide and high, and its lower right quarter starts at the end that it marks.
pub proof fn marks_are_four_pixels_wide(x0: int, y0: int, dx: int, dy: int)
    ensures
        in_mark(x0, y0, x0 + dx, y0 + dy) <==> (dx == -2 || dx == -1 || dx == 0 || dx == 1) && (dy == -2
            || dy == -1 || dy == 0 || dy == 1),
{
}

/// A plane crosses two sides of a triangle or none: none exactly if all corners lie on one side.
pub proof fn planes_cross_two_sides_or_none(above: Seq<bool>, i: int)
    requires
        above.len() == 3,
        0 <= i < 3,
    ensures
        crosses(above, 0) == (crosses(above, 1) != crosses(above, 2)),
        !crosses(above, 0) && !crosses(above, 1) <==> above[0] == above[1] && above[1] == above[2],
        // the corner between two crossed sides lies alone on its side
        crosses(above, i) && crosses(above, (i + 1) % 3) <==> above[i] != above[(i + 1) % 3] && above[i]
            == above[(i + 2) % 3],
{
}

/// The layers that are combined are looked at one after the other, from the outermost one in front to the
/// outermost one behind; in reverse they come from the other side. The surface itself is one of them.
pub proof fn layers_are_looked_at_in_turn(
    plane: i32,
    in_front: u8,
    behind: u8,
    reverse: bool,
    layers: Vec<i64>,
    k: int,
)
    requires
        call_ensures(composite_layers, (plane, in_front, behind, reverse), layers),
        0 <= k < layers@.len(),
    ensures
        k + 1 < layers@.len() ==> layers@[k + 1] - layers@[k] == (if reverse { 1int } else { -1 }),
        layers@[in_front as int] == plane,
        layers@.last() == (if reverse { plane + behind } else { plane - behind }),
{
}

} // verus!
