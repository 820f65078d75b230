//! The persisted content model: frames (image references, identified by
//! source path) and animations (named, ordered timelines of frame references
//! with durations). Names and frame paths are unique within one sheet.

use crate::codec::dec_anims;
use crate::codec::dec_bool;
use crate::codec::dec_frames;
use crate::codec::dec_sheet;
use crate::codec::dec_str;
use crate::codec::dec_timeline;
use crate::codec::dec_u64;
use crate::codec::enc_anim;
use crate::codec::enc_anim_frame;
use crate::codec::enc_anims;
use crate::codec::enc_bool;
use crate::codec::enc_frames;
use crate::codec::enc_str;
use crate::codec::enc_timeline;
use crate::codec::enc_u64;
use crate::codec::spec_decode;
use crate::codec::spec_encode;
use crate::digits::all_digits;
use crate::digits::char_digit;
use crate::digits::dec_digits;
use crate::digits::digit_val;
use crate::digits::digits_value;
use crate::digits::lemma_dec_digits_injective;
use crate::digits::lemma_pow10_le;
use crate::digits::pow10;
use crate::digits::push_dec;
use crate::digits::push_fixed;
use vstd::prelude::*;
use vstd::set_lib::lemma_len_subset;

verus! {

/// The name generated for the `i`-th fallback of a new animation.
pub open spec fn candidate_name(i: nat) -> Seq<char> {
    "Animation "@ + dec_digits(i)
}

/// The smallest index `j` with `i <= j <= names.len()` whose candidate name
/// is not in `names`, probing upward from `i`; `names.len()` when every
/// probed candidate below it is taken.
pub open spec fn first_free_index(names: Seq<Seq<char>>, i: nat) -> nat
    decreases names.len() + 1 - i,
{
    if i >= names.len() {
        i
    } else if !names.contains(candidate_name(i)) {
        i
    } else {
        first_free_index(names, i + 1)
    }
}

/// The name a sheet with animation names `names` generates for a new
/// animation.
pub open spec fn gen_anim_name(names: Seq<Seq<char>>) -> Seq<char> {
    candidate_name(first_free_index(names, 0))
}

proof fn lemma_candidate_injective(a: nat, b: nat)
    requires
        candidate_name(a) == candidate_name(b),
    ensures
        a == b,
{
    let p = "Animation "@;
    assert(dec_digits(a) =~= candidate_name(a).subrange(
        p.len() as int,
        candidate_name(a).len() as int,
    ));
    assert(dec_digits(b) =~= candidate_name(b).subrange(
        p.len() as int,
        candidate_name(b).len() as int,
    ));
    lemma_dec_digits_injective(a, b);
}

proof fn lemma_first_free_index(names: Seq<Seq<char>>, i: nat)
    requires
        i <= names.len(),
    ensures
        i <= first_free_index(names, i) <= names.len(),
        first_free_index(names, i) < names.len() ==> !names.contains(
            candidate_name(first_free_index(names, i)),
        ),
        forall|j: nat|
            i <= j < first_free_index(names, i) ==> names.contains(#[trigger] candidate_name(j)),
    decreases names.len() + 1 - i,
{
    if i < names.len() && names.contains(candidate_name(i)) {
        lemma_first_free_index(names, i + 1);
    }
}

/// The generated name never collides with an existing one: there are more
/// candidate names than animations.
proof fn lemma_gen_name_free(names: Seq<Seq<char>>)
    ensures
        !names.contains(gen_anim_name(names)),
{
    broadcast use vstd::seq_lib::group_seq_properties;

    let r = first_free_index(names, 0);
    lemma_first_free_index(names, 0);
    if r == names.len() && names.contains(candidate_name(r)) {
        let cands = Seq::new(names.len() + 1, |j: int| candidate_name(j as nat));
        assert(cands.no_duplicates()) by {
            assert forall|x: int, y: int|
                0 <= x < cands.len() && 0 <= y < cands.len() && x != y implies cands[x]
                != cands[y] by {
                if cands[x] == cands[y] {
                    lemma_candidate_injective(x as nat, y as nat);
                }
            }
        }
        cands.unique_seq_to_set();
        names.lemma_cardinality_of_set();
        assert forall|x: Seq<char>| cands.to_set().contains(x) implies names.to_set().contains(
            x,
        ) by {
            let j = choose|j: int| 0 <= j < cands.len() && cands[j] == x;
            if j < names.len() {
                assert(names.contains(candidate_name(j as nat)));
            } else {
                assert(x == candidate_name(r));
            }
            assert(names.contains(x));
        }
        lemma_len_subset(cands.to_set(), names.to_set());
        assert(false);
    }
}

/// A single image reference inside a sheet, identified by its source path.
#[derive(Debug)]
pub struct Frame {
    source: String,
}

/// One step of an animation timeline: a frame reference plus how long it is
/// displayed, in milliseconds.
#[derive(Debug)]
pub struct AnimationFrame {
    frame: String,
    duration: u32,
}

/// A named, ordered sequence of animation frames.
#[derive(Debug)]
pub struct Animation {
    name: String,
    timeline: Vec<AnimationFrame>,
    is_looping: bool,
}

/// The persisted content model of one document: frames and animations,
/// independent of any editor state.
#[derive(Debug)]
pub struct Sheet {
    frames: Vec<Frame>,
    animations: Vec<Animation>,
}

/// The names of a sequence of animations, in order.
pub open spec fn anim_names_of(s: Seq<AnimationModel>) -> Seq<Seq<char>> {
    s.map(|i: int, a: AnimationModel| a.name)
}

/// Mathematical value of an `AnimationFrame`.
#[verifier::ext_equal]
pub ghost struct AnimationFrameModel {
    pub frame: Seq<char>,
    pub duration: u32,
}

/// Mathematical value of an `Animation`.
#[verifier::ext_equal]
pub ghost struct AnimationModel {
    pub name: Seq<char>,
    pub timeline: Seq<AnimationFrameModel>,
    pub is_looping: bool,
}

/// Mathematical value of a `Sheet`: frame source paths and animations.
#[verifier::ext_equal]
pub ghost struct SheetModel {
    pub frames: Seq<Seq<char>>,
    pub animations: Seq<AnimationModel>,
}

impl View for AnimationFrame {
    type V = AnimationFrameModel;

    closed spec fn view(&self) -> AnimationFrameModel {
        AnimationFrameModel { frame: self.frame@, duration: self.duration }
    }
}

/// The models of a timeline's steps, in order.
spec fn timeline_model(t: Seq<AnimationFrame>) -> Seq<AnimationFrameModel> {
    t.map(|i: int, f: AnimationFrame| f@)
}

/// The models of a frame list, in order.
spec fn frames_model(v: Seq<Frame>) -> Seq<Seq<char>> {
    v.map(|i: int, f: Frame| f@)
}

/// The models of an animation list, in order.
spec fn anims_model(v: Seq<Animation>) -> Seq<AnimationModel> {
    v.map(|i: int, a: Animation| a@)
}

impl View for Animation {
    type V = AnimationModel;

    closed spec fn view(&self) -> AnimationModel {
        AnimationModel {
            name: self.name@,
            timeline: timeline_model(self.timeline@),
            is_looping: self.is_looping,
        }
    }
}

impl View for Frame {
    type V = Seq<char>;

    closed spec fn view(&self) -> Seq<char> {
        self.source@
    }
}

impl View for Sheet {
    type V = SheetModel;

    closed spec fn view(&self) -> SheetModel {
        SheetModel { frames: frames_model(self.frames@), animations: anims_model(self.animations@) }
    }
}

/// Builds the `i`-th candidate animation name.
fn make_candidate(i: u64) -> (s: String)
    ensures
        s@ == candidate_name(i as nat),
{
    proof {
        reveal_strlit("Animation ");
    }
    let mut s = String::new();
    s.append("Animation ");
    push_dec(&mut s, i);
    s
}

impl SheetModel {
    /// `has_anim` said over the name sequence.
    pub proof fn lemma_has_anim_names(self, name: Seq<char>)
        ensures
            self.has_anim(name) <==> self.anim_names().contains(name),
    {
        if self.has_anim(name) {
            let i = choose|i: int|
                0 <= i < self.animations.len() && self.animations[i].name == name;
            assert(self.anim_names()[i] == name);
        }
        if self.anim_names().contains(name) {
            let i = choose|i: int|
                0 <= i < self.anim_names().len() && self.anim_names()[i] == name;
            assert(self.animations[i].name == name);
        }
    }

    /// The sheet with no frames and no animations.
    pub open spec fn empty() -> SheetModel {
        SheetModel { frames: Seq::empty(), animations: Seq::empty() }
    }

    pub open spec fn has_frame(self, path: Seq<char>) -> bool {
        self.frames.contains(path)
    }

    /// The animation names, in timeline order.
    pub open spec fn anim_names(self) -> Seq<Seq<char>> {
        anim_names_of(self.animations)
    }

    pub open spec fn has_anim(self, name: Seq<char>) -> bool {
        exists|i: int| 0 <= i < self.animations.len() && self.animations[i].name == name
    }

    /// The index of the animation called `name` (meaningful when `has_anim`
    /// holds; unique under `wf`).
    pub open spec fn anim_index(self, name: Seq<char>) -> int {
        choose|i: int| 0 <= i < self.animations.len() && self.animations[i].name == name
    }

    /// Frame paths and animation names are unique within one sheet.
    pub open spec fn wf(self) -> bool {
        &&& self.frames.no_duplicates()
        &&& self.anim_names().no_duplicates()
    }
}

impl Frame {
    pub fn new(source: String) -> (f: Frame)
        ensures
            f@ == source@,
    {
        Frame { source }
    }

    pub fn get_source(&self) -> (r: &String)
        ensures
            r@ == self@,
    {
        &self.source
    }
}

impl AnimationFrame {
    pub fn get_frame(&self) -> (r: &String)
        ensures
            r@ == self@.frame,
    {
        &self.frame
    }

    pub fn get_duration(&self) -> (d: u32)
        ensures
            d == self@.duration,
    {
        self.duration
    }
}

impl Animation {
    pub fn get_name(&self) -> (r: &String)
        ensures
            r@ == self@.name,
    {
        &self.name
    }

    pub fn is_looping(&self) -> (b: bool)
        ensures
            b == self@.is_looping,
    {
        self.is_looping
    }

    pub fn get_num_frames(&self) -> (n: usize)
        ensures
            n == self@.timeline.len(),
    {
        self.timeline.len()
    }

    /// The timeline steps, in playback order.
    pub fn get_timeline(&self) -> (r: &Vec<AnimationFrame>)
        ensures
            r@.len() == self@.timeline.len(),
            forall|j: int| 0 <= j < r@.len() ==> #[trigger] r@[j]@ == self@.timeline[j],
    {
        &self.timeline
    }
}

/// An element-for-element copy of a timeline.
fn duplicate_timeline(t: &Vec<AnimationFrame>) -> (r: Vec<AnimationFrame>)
    ensures
        r@.map(|i: int, f: AnimationFrame| f@) == t@.map(|i: int, f: AnimationFrame| f@),
{
    let mut out: Vec<AnimationFrame> = Vec::new();
    let mut i: usize = 0;
    while i < t.len()
        invariant
            i <= t.len(),
            out@.len() == i,
            forall|j: int| 0 <= j < i ==> #[trigger] out@[j]@ == t@[j]@,
        decreases t.len() - i,
    {
        out.push(AnimationFrame { frame: t[i].frame.clone(), duration: t[i].duration });
        i += 1;
    }
    proof {
        assert(out@.map(|i: int, f: AnimationFrame| f@) =~= t@.map(
            |i: int, f: AnimationFrame| f@,
        ));
    }
    out
}

/// Appends a number to the wire text.
fn push_u64_field(out: &mut String, n: u64)
    ensures
        final(out)@ == old(out)@ + enc_u64(n as nat),
{
    push_fixed(out, n, 20);
}

/// Appends a length-prefixed string to the wire text.
fn push_str_field(out: &mut String, t: &String)
    ensures
        final(out)@ == old(out)@ + enc_str(t@),
{
    let n = t.unicode_len();
    push_u64_field(out, n as u64);
    out.append(t.as_str());
    proof {
        assert(out@ =~= old(out)@ + enc_str(t@));
    }
}

/// Appends a flag to the wire text.
fn push_bool_field(out: &mut String, b: bool)
    ensures
        final(out)@ == old(out)@ + enc_bool(b),
{
    proof {
        reveal_strlit("0");
        reveal_strlit("1");
    }
    if b {
        out.append("1");
    } else {
        out.append("0");
    }
    proof {
        assert(out@ =~= old(out)@ + enc_bool(b));
    }
}

/// Appends the timeline steps from index `i` on to the wire text.
fn push_timeline_from(out: &mut String, t: &Vec<AnimationFrame>, i: usize)
    requires
        i <= t.len(),
    ensures
        final(out)@ == old(out)@ + enc_timeline(
            timeline_model(t@).subrange(i as int, t@.len() as int),
        ),
    decreases t.len() - i,
{
    let ghost part = timeline_model(t@).subrange(i as int, t@.len() as int);
    if i == t.len() {
        proof {
            assert(out@ =~= old(out)@ + enc_timeline(part));
        }
    } else {
        push_str_field(out, &t[i].frame);
        push_u64_field(out, t[i].duration as u64);
        proof {
            assert(part.first() == timeline_model(t@)[i as int]);
            assert(out@ =~= old(out)@ + enc_anim_frame(part.first()));
        }
        push_timeline_from(out, t, i + 1);
        proof {
            assert(part.drop_first() =~= timeline_model(t@).subrange(
                i + 1,
                t@.len() as int,
            ));
            assert(out@ =~= old(out)@ + enc_timeline(part));
        }
    }
}

/// Appends the frame paths from index `i` on to the wire text.
fn push_frames_from(out: &mut String, v: &Vec<Frame>, i: usize)
    requires
        i <= v.len(),
    ensures
        final(out)@ == old(out)@ + enc_frames(
            frames_model(v@).subrange(i as int, v@.len() as int),
        ),
    decreases v.len() - i,
{
    let ghost part = frames_model(v@).subrange(i as int, v@.len() as int);
    if i == v.len() {
        proof {
            assert(out@ =~= old(out)@ + enc_frames(part));
        }
    } else {
        push_str_field(out, &v[i].source);
        proof {
            assert(part.first() == frames_model(v@)[i as int]);
        }
        push_frames_from(out, v, i + 1);
        proof {
            assert(part.drop_first() =~= frames_model(v@).subrange(i + 1, v@.len() as int));
            assert(out@ =~= old(out)@ + enc_frames(part));
        }
    }
}

/// Appends the animations from index `i` on to the wire text.
fn push_anims_from(out: &mut String, v: &Vec<Animation>, i: usize)
    requires
        i <= v.len(),
    ensures
        final(out)@ == old(out)@ + enc_anims(
            anims_model(v@).subrange(i as int, v@.len() as int),
        ),
    decreases v.len() - i,
{
    let ghost part = anims_model(v@).subrange(i as int, v@.len() as int);
    if i == v.len() {
        proof {
            assert(out@ =~= old(out)@ + enc_anims(part));
        }
    } else {
        let a = &v[i];
        push_str_field(out, &a.name);
        push_bool_field(out, a.is_looping);
        push_u64_field(out, a.timeline.len() as u64);
        push_timeline_from(out, &a.timeline, 0);
        proof {
            assert(part.first() == anims_model(v@)[i as int]);
            assert(timeline_model(a.timeline@).subrange(0, a.timeline@.len() as int)
                =~= part.first().timeline);
            assert(out@ =~= old(out)@ + enc_anim(part.first()));
        }
        push_anims_from(out, v, i + 1);
        proof {
            assert(part.drop_first() =~= anims_model(v@).subrange(i + 1, v@.len() as int));
            assert(out@ =~= old(out)@ + enc_anims(part));
        }
    }
}

/// Reads a number from the wire text at `i`.
fn dec_u64_at(s: &str, i: usize) -> (r: Option<(u64, usize)>)
    ensures
        match r {
            Some(p) => dec_u64(s@, i as int) == Some::<(nat, int)>((p.0 as nat, p.1 as int))
                && p.1 as int == i + 20 && p.1 <= s@.len(),
            None => dec_u64(s@, i as int) is None,
        },
{
    let n = s.unicode_len();
    if n < 20 || i > n - 20 {
        return None;
    }
    let ghost window = s@.subrange(i as int, i + 20);
    let mut acc: u128 = 0;
    let mut k: usize = 0;
    while k < 20
        invariant
            k <= 20,
            i + 20 <= n,
            n == s@.len(),
            window == s@.subrange(i as int, i + 20),
            all_digits(window.subrange(0, k as int)),
            acc as nat == digits_value(window.subrange(0, k as int)),
            (acc as nat) < pow10(k as nat),
        decreases 20 - k,
    {
        let c = s.get_char(i + k);
        proof {
            assert(window[k as int] == c);
        }
        let d = char_digit(c);
        if d >= 10 {
            proof {
                assert(digit_val(window[k as int]) >= 10);
            }
            return None;
        }
        proof {
            lemma_pow10_le(k as nat + 1, 20);
            reveal_with_fuel(pow10, 21);
            assert(pow10((k + 1) as nat) == 10 * pow10(k as nat));
        }
        acc = acc * 10 + (d as u128);
        proof {
            assert(window.subrange(0, k as int) =~= window.subrange(0, k + 1).drop_last());
            assert(window.subrange(0, k + 1).last() == window[k as int]);
            assert(all_digits(window.subrange(0, k + 1))) by {
                assert(forall|j: int|
                    0 <= j < k + 1 ==> window.subrange(0, k + 1)[j] == #[trigger] window[j]);
                assert(forall|j: int|
                    0 <= j < k ==> window.subrange(0, k as int)[j] == #[trigger] window[j]);
            }
        }
        k += 1;
    }
    proof {
        assert(window.subrange(0, 20) =~= window);
    }
    if acc > u64::MAX as u128 {
        None
    } else {
        Some((acc as u64, i + 20))
    }
}

/// Reads a length-prefixed string from the wire text at `i`.
fn dec_str_at(s: &str, i: usize) -> (r: Option<(String, usize)>)
    ensures
        match r {
            Some(p) => (dec_str(s@, i as int) matches Some(q) && q.0 == p.0@ && q.1 == p.1 as int
                && p.1 <= s@.len()),
            None => dec_str(s@, i as int) is None,
        },
{
    let (v, j) = match dec_u64_at(s, i) {
        Some(p) => p,
        None => {
            return None;
        },
    };
    let n = s.unicode_len();
    if v > (n - j) as u64 {
        return None;
    }
    let l = v as usize;
    let sub = s.substring_char(j, j + l);
    Some((sub.to_owned(), j + l))
}

/// Reads a flag from the wire text at `i`.
fn dec_bool_at(s: &str, i: usize) -> (r: Option<(bool, usize)>)
    ensures
        match r {
            Some(p) => dec_bool(s@, i as int) == Some::<(bool, int)>((p.0, p.1 as int)) && p.1
                <= s@.len(),
            None => dec_bool(s@, i as int) is None,
        },
{
    let n = s.unicode_len();
    if i >= n {
        return None;
    }
    let c = s.get_char(i);
    if c == '0' {
        Some((false, i + 1))
    } else if c == '1' {
        Some((true, i + 1))
    } else {
        None
    }
}

/// Reads `count` timeline steps from the wire text at `i`.
fn dec_timeline_at(s: &str, i: usize, count: u64) -> (r: Option<(Vec<AnimationFrame>, usize)>)
    requires
        i <= s@.len(),
    ensures
        match r {
            Some(p) => (dec_timeline(s@, i as int, count as nat) matches Some(q) && q.0
                == timeline_model(p.0@) && q.1 == p.1 as int && p.1 <= s@.len()),
            None => dec_timeline(s@, i as int, count as nat) is None,
        },
    decreases count,
{
    if count == 0 {
        let out: Vec<AnimationFrame> = Vec::new();
        proof {
            assert(timeline_model(out@) =~= Seq::<AnimationFrameModel>::empty());
        }
        return Some((out, i));
    }
    let (frame, j) = match dec_str_at(s, i) {
        Some(p) => p,
        None => {
            return None;
        },
    };
    let (d, k) = match dec_u64_at(s, j) {
        Some(p) => p,
        None => {
            return None;
        },
    };
    if d > u32::MAX as u64 {
        return None;
    }
    let (rest, end) = match dec_timeline_at(s, k, count - 1) {
        Some(p) => p,
        None => {
            return None;
        },
    };
    let mut out: Vec<AnimationFrame> = Vec::new();
    out.push(AnimationFrame { frame, duration: d as u32 });
    let mut tail = rest;
    out.append(&mut tail);
    proof {
        let q = dec_timeline(s@, i as int, count as nat)->0;
        assert(timeline_model(out@) =~= q.0);
    }
    Some((out, end))
}

/// Reads `count` frame paths from the wire text at `i`.
fn dec_frames_at(s: &str, i: usize, count: u64) -> (r: Option<(Vec<Frame>, usize)>)
    requires
        i <= s@.len(),
    ensures
        match r {
            Some(p) => (dec_frames(s@, i as int, count as nat) matches Some(q) && q.0
                == frames_model(p.0@) && q.1 == p.1 as int && p.1 <= s@.len()),
            None => dec_frames(s@, i as int, count as nat) is None,
        },
    decreases count,
{
    if count == 0 {
        let out: Vec<Frame> = Vec::new();
        proof {
            assert(frames_model(out@) =~= Seq::<Seq<char>>::empty());
        }
        return Some((out, i));
    }
    let (source, j) = match dec_str_at(s, i) {
        Some(p) => p,
        None => {
            return None;
        },
    };
    let (rest, end) = match dec_frames_at(s, j, count - 1) {
        Some(p) => p,
        None => {
            return None;
        },
    };
    let mut out: Vec<Frame> = Vec::new();
    out.push(Frame { source });
    let mut tail = rest;
    out.append(&mut tail);
    proof {
        let q = dec_frames(s@, i as int, count as nat)->0;
        assert(frames_model(out@) =~= q.0);
    }
    Some((out, end))
}

/// Reads `count` animations from the wire text at `i`.
fn dec_anims_at(s: &str, i: usize, count: u64) -> (r: Option<(Vec<Animation>, usize)>)
    requires
        i <= s@.len(),
    ensures
        match r {
            Some(p) => (dec_anims(s@, i as int, count as nat) matches Some(q) && q.0 == anims_model(
                p.0@,
            ) && q.1 == p.1 as int && p.1 <= s@.len()),
            None => dec_anims(s@, i as int, count as nat) is None,
        },
    decreases count,
{
    if count == 0 {
        let out: Vec<Animation> = Vec::new();
        proof {
            assert(anims_model(out@) =~= Seq::<AnimationModel>::empty());
        }
        return Some((out, i));
    }
    let (name, j) = match dec_str_at(s, i) {
        Some(p) => p,
        None => {
            return None;
        },
    };
    let (looping, k) = match dec_bool_at(s, j) {
        Some(p) => p,
        None => {
            return None;
        },
    };
    let (steps, l) = match dec_u64_at(s, k) {
        Some(p) => p,
        None => {
            return None;
        },
    };
    let (timeline, m) = match dec_timeline_at(s, l, steps) {
        Some(p) => p,
        None => {
            return None;
        },
    };
    let (rest, end) = match dec_anims_at(s, m, count - 1) {
        Some(p) => p,
        None => {
            return None;
        },
    };
    let mut out: Vec<Animation> = Vec::new();
    out.push(Animation { name, timeline, is_looping: looping });
    let mut tail = rest;
    out.append(&mut tail);
    proof {
        let q = dec_anims(s@, i as int, count as nat)->0;
        assert(anims_model(out@) =~= q.0);
    }
    Some((out, end))
}

/// Whether the frame paths are pairwise distinct.
fn frames_unique(v: &Vec<Frame>) -> (b: bool)
    ensures
        b == frames_model(v@).no_duplicates(),
{
    let ghost m = frames_model(v@);
    let mut i: usize = 0;
    while i < v.len()
        invariant
            i <= v.len(),
            m == frames_model(v@),
            forall|x: int, y: int| 0 <= x < i && x < y < m.len() ==> m[x] != m[y],
        decreases v.len() - i,
    {
        let mut j: usize = i + 1;
        while j < v.len()
            invariant
                i < j <= v.len(),
                m == frames_model(v@),
                forall|y: int| i < y < j ==> m[i as int] != m[y],
            decreases v.len() - j,
        {
            if v[i].source.eq(&v[j].source) {
                proof {
                    assert(m[i as int] == m[j as int]);
                }
                return false;
            }
            j += 1;
        }
        i += 1;
    }
    proof {
        assert forall|x: int, y: int|
            0 <= x < m.len() && 0 <= y < m.len() && x != y implies m[x] != m[y] by {
            if x < y {
            } else {
            }
        }
    }
    true
}

/// Whether the animation names are pairwise distinct.
fn anims_unique(v: &Vec<Animation>) -> (b: bool)
    ensures
        b == anim_names_of(anims_model(v@)).no_duplicates(),
{
    let ghost m = anim_names_of(anims_model(v@));
    let mut i: usize = 0;
    while i < v.len()
        invariant
            i <= v.len(),
            m == anim_names_of(anims_model(v@)),
            m.len() == v.len(),
            forall|j: int| 0 <= j < m.len() ==> m[j] == v@[j]@.name,
            forall|x: int, y: int| 0 <= x < i && x < y < m.len() ==> m[x] != m[y],
        decreases v.len() - i,
    {
        let mut j: usize = i + 1;
        while j < v.len()
            invariant
                i < j <= v.len(),
                m == anim_names_of(anims_model(v@)),
                m.len() == v.len(),
                forall|k: int| 0 <= k < m.len() ==> m[k] == v@[k]@.name,
                forall|y: int| i < y < j ==> m[i as int] != m[y],
            decreases v.len() - j,
        {
            if v[i].name.eq(&v[j].name) {
                proof {
                    assert(m[i as int] == m[j as int]);
                }
                return false;
            }
            j += 1;
        }
        i += 1;
    }
    proof {
        assert forall|x: int, y: int|
            0 <= x < m.len() && 0 <= y < m.len() && x != y implies m[x] != m[y] by {
            if x < y {
            } else {
            }
        }
    }
    true
}

impl Sheet {
    /// Reads a sheet back from wire text: the exact inverse of `encode` on
    /// everything `encode` writes. Text that is malformed, has trailing
    /// content, or violates the sheet invariants (duplicate frame paths or
    /// animation names) is rejected.
    pub fn decode(data: &str) -> (r: Option<Sheet>)
        ensures
            match r {
                Some(sheet) => spec_decode(data@) == Some(sheet@) && sheet@.wf(),
                None => spec_decode(data@) is None,
            },
    {
        let (fc, i) = match dec_u64_at(data, 0) {
            Some(p) => p,
            None => {
                return None;
            },
        };
        let (frames, j) = match dec_frames_at(data, i, fc) {
            Some(p) => p,
            None => {
                return None;
            },
        };
        let (ac, k) = match dec_u64_at(data, j) {
            Some(p) => p,
            None => {
                return None;
            },
        };
        let (anims, l) = match dec_anims_at(data, k, ac) {
            Some(p) => p,
            None => {
                return None;
            },
        };
        if l != data.unicode_len() {
            return None;
        }
        if !frames_unique(&frames) {
            return None;
        }
        if !anims_unique(&anims) {
            return None;
        }
        let sheet = Sheet { frames, animations: anims };
        proof {
            let q = dec_sheet(data@)->0;
            assert(sheet@ =~= q.0);
            assert(sheet@.anim_names() == anim_names_of(anims_model(sheet.animations@)));
        }
        Some(sheet)
    }

    /// The wire text that persists this sheet; decoding it yields this sheet
    /// back.
    pub fn encode(&self) -> (r: String)
        ensures
            r@ == spec_encode(self@),
    {
        let mut out = String::new();
        push_u64_field(&mut out, self.frames.len() as u64);
        push_frames_from(&mut out, &self.frames, 0);
        push_u64_field(&mut out, self.animations.len() as u64);
        push_anims_from(&mut out, &self.animations, 0);
        proof {
            assert(frames_model(self.frames@).subrange(0, self.frames@.len() as int)
                =~= self@.frames);
            assert(anims_model(self.animations@).subrange(0, self.animations@.len() as int)
                =~= self@.animations);
            assert(out@ =~= spec_encode(self@));
        }
        out
    }

    /// A copy of this sheet with the same mathematical value; used to hand
    /// content out for persistence without giving up the original.
    pub fn duplicate(&self) -> (r: Sheet)
        ensures
            r@ == self@,
    {
        let mut frames: Vec<Frame> = Vec::new();
        let mut i: usize = 0;
        while i < self.frames.len()
            invariant
                i <= self.frames.len(),
                frames@.len() == i,
                forall|j: int| 0 <= j < i ==> #[trigger] frames@[j]@ == self.frames@[j]@,
            decreases self.frames.len() - i,
        {
            frames.push(Frame { source: self.frames[i].source.clone() });
            i += 1;
        }
        let mut animations: Vec<Animation> = Vec::new();
        let mut k: usize = 0;
        while k < self.animations.len()
            invariant
                k <= self.animations.len(),
                animations@.len() == k,
                forall|j: int| 0 <= j < k ==> #[trigger] animations@[j]@ == self.animations@[j]@,
            decreases self.animations.len() - k,
        {
            let a = &self.animations[k];
            animations.push(
                Animation {
                    name: a.name.clone(),
                    timeline: duplicate_timeline(&a.timeline),
                    is_looping: a.is_looping,
                },
            );
            k += 1;
        }
        let r = Sheet { frames, animations };
        proof {
            assert(r@.frames =~= self@.frames);
            assert(r@.animations =~= self@.animations);
            assert(r@ =~= self@);
        }
        r
    }

    pub fn new() -> (s: Sheet)
        ensures
            s@ == SheetModel::empty(),
            s@.wf(),
    {
        let s = Sheet { frames: Vec::new(), animations: Vec::new() };
        proof {
            assert(s@ =~= SheetModel::empty());
        }
        s
    }

    pub fn has_frame(&self, path: &String) -> (b: bool)
        ensures
            b == self@.has_frame(path@),
    {
        let mut i: usize = 0;
        while i < self.frames.len()
            invariant
                i <= self.frames.len(),
                forall|j: int| 0 <= j < i ==> self@.frames[j] != path@,
            decreases self.frames.len() - i,
        {
            if self.frames[i].source.eq(path) {
                assert(self@.frames[i as int] == path@);
                return true;
            }
            i += 1;
        }
        assert(!self@.frames.contains(path@));
        false
    }

    /// The index of the animation called `name`, when there is one.
    fn find_animation(&self, name: &String) -> (r: Option<usize>)
        ensures
            match r {
                Some(i) => i < self@.animations.len() && self@.animations[i as int].name == name@,
                None => !self@.has_anim(name@),
            },
    {
        let mut i: usize = 0;
        while i < self.animations.len()
            invariant
                i <= self.animations.len(),
                forall|j: int| 0 <= j < i ==> self@.animations[j].name != name@,
            decreases self.animations.len() - i,
        {
            if self.animations[i].name.eq(name) {
                assert(self@.animations[i as int].name == name@);
                return Some(i);
            }
            i += 1;
        }
        None
    }

    pub fn has_animation(&self, name: &String) -> (b: bool)
        ensures
            b == self@.has_anim(name@),
    {
        self.find_animation(name).is_some()
    }

    pub fn get_animation(&self, name: &String) -> (r: Option<&Animation>)
        requires
            self@.wf(),
        ensures
            match r {
                Some(a) => self@.has_anim(name@) && a@ == self@.animations[self@.anim_index(
                    name@,
                )] && a@.name == name@,
                None => !self@.has_anim(name@),
            },
    {
        match self.find_animation(name) {
            Some(i) => {
                proof {
                    let k = self@.anim_index(name@);
                    assert(self@.anim_names()[i as int] == name@);
                    assert(self@.anim_names()[k] == name@);
                }
                Some(&self.animations[i])
            },
            None => None,
        }
    }

    /// Adds a new empty, non-looping animation under a generated name that no
    /// existing animation carries, and returns that name.
    pub fn add_animation(&mut self) -> (name: String)
        requires
            old(self)@.wf(),
        ensures
            final(self)@.wf(),
            final(self)@.frames == old(self)@.frames,
            !old(self)@.has_anim(name@),
            name@ == gen_anim_name(old(self)@.anim_names()),
            final(self)@.animations == old(self)@.animations.push(
                AnimationModel { name: name@, timeline: Seq::empty(), is_looping: false },
            ),
    {
        let ghost names = self@.anim_names();
        let n = self.animations.len();
        let mut i: usize = 0;
        let mut name = make_candidate(0);
        while i < n && self.has_animation(&name)
            invariant
                i <= n,
                n == names.len(),
                self == old(self),
                names == self@.anim_names(),
                self@.wf(),
                name@ == candidate_name(i as nat),
                forall|j: nat| j < i ==> names.contains(#[trigger] candidate_name(j)),
            decreases n - i,
        {
            proof {
                self@.lemma_has_anim_names(name@);
                assert(names.contains(candidate_name(i as nat)));
            }
            i += 1;
            name = make_candidate(i as u64);
        }
        proof {
            lemma_first_free_index(names, 0);
            let r = first_free_index(names, 0);
            if i < n {
                self@.lemma_has_anim_names(name@);
                assert(!names.contains(candidate_name(i as nat)));
                if r < i {
                    assert(names.contains(candidate_name(r)));
                }
                if r > i {
                    assert(names.contains(candidate_name(i as nat)));
                }
            } else {
                if r < i {
                    assert(names.contains(candidate_name(r)));
                }
            }
            assert(r == i);
            lemma_gen_name_free(names);
            assert(name@ == gen_anim_name(names));
            assert(!names.contains(name@));
            self@.lemma_has_anim_names(name@);
        }
        let ghost pre = self@;
        self.animations.push(
            Animation { name: name.clone(), timeline: Vec::new(), is_looping: false },
        );
        proof {
            assert(self@.animations =~~= pre.animations.push(
                AnimationModel { name: name@, timeline: Seq::empty(), is_looping: false },
            ));
            assert(self@.frames =~= pre.frames);
            assert(self@.anim_names() =~= pre.anim_names().push(name@));
            pre.lemma_has_anim_names(name@);
            assert(self@.anim_names().no_duplicates());
        }
        name
    }

    /// Gives the animation called `old_name` the name `new_name`; everything
    /// else about it, and every other animation, is kept as it is.
    pub fn rename_animation(&mut self, old_name: &String, new_name: &String)
        requires
            old(self)@.wf(),
            old(self)@.has_anim(old_name@),
            !old(self)@.has_anim(new_name@),
        ensures
            final(self)@.wf(),
            final(self)@.frames == old(self)@.frames,
            final(self)@.animations == old(self)@.animations.update(
                old(self)@.anim_index(old_name@),
                AnimationModel {
                    name: new_name@,
                    ..old(self)@.animations[old(self)@.anim_index(old_name@)]
                },
            ),
            final(self)@.has_anim(new_name@),
            !final(self)@.has_anim(old_name@),
    {
        let ghost pre = self@;
        let i = match self.find_animation(old_name) {
            Some(i) => i,
            None => {
                proof {
                    assert(false);
                }
                0
            },
        };
        let mut a = self.animations.remove(i);
        a.name = new_name.clone();
        self.animations.insert(i, a);
        proof {
            let k = pre.anim_index(old_name@);
            assert(pre.animations[i as int].name == old_name@);
            assert(0 <= k < pre.animations.len() && pre.animations[k].name == old_name@);
            assert(pre.anim_names()[i as int] == old_name@);
            assert(pre.anim_names()[k] == old_name@);
            assert(k == i);
            assert(self@.animations =~= pre.animations.update(
                k,
                AnimationModel { name: new_name@, ..pre.animations[k] },
            ));
            assert(self@.frames =~= pre.frames);
            assert forall|x: int, y: int|
                0 <= x < self@.anim_names().len() && 0 <= y < self@.anim_names().len() && x != y
                    && self@.anim_names()[x] == self@.anim_names()[y] implies false by {
                assert(pre.anim_names()[x] == if x == k {
                    old_name@
                } else {
                    self@.anim_names()[x]
                });
                assert(pre.anim_names()[y] == if y == k {
                    old_name@
                } else {
                    self@.anim_names()[y]
                });
                if x != k && y != k {
                    assert(pre.anim_names()[x] == pre.anim_names()[y]);
                } else if x == k {
                    assert(self@.anim_names()[y] == new_name@);
                    assert(pre.anim_names().contains(new_name@));
                    assert(pre.has_anim(new_name@));
                } else {
                    assert(self@.anim_names()[x] == new_name@);
                    assert(pre.anim_names().contains(new_name@));
                    assert(pre.has_anim(new_name@));
                }
            }
            assert(self@.anim_names().no_duplicates());
            assert(self@.animations[k].name == new_name@);
            assert(self@.has_anim(new_name@));
            assert forall|j: int| 0 <= j < self@.animations.len() implies self@.animations[j].name
                != old_name@ by {
                if j != k {
                    assert(pre.animations[j].name == self@.animations[j].name);
                    if self@.animations[j].name == old_name@ {
                        assert(pre.anim_names()[j] == old_name@);
                        assert(pre.anim_names()[k] == old_name@);
                    }
                } else {
                    assert(self@.animations[j].name == new_name@);
                    if new_name@ == old_name@ {
                        assert(pre.has_anim(new_name@));
                    }
                }
            }
        }
    }

    /// Registers a new frame under `path`; a path already present is kept as
    /// it is, so frame paths stay unique.
    pub fn add_frame(&mut self, path: &String)
        requires
            old(self)@.wf(),
        ensures
            final(self)@.wf(),
            final(self)@.animations == old(self)@.animations,
            old(self)@.has_frame(path@) ==> final(self)@ == old(self)@,
            !old(self)@.has_frame(path@) ==> final(self)@.frames == old(self)@.frames.push(
                path@,
            ),
    {
        if !self.has_frame(path) {
            let ghost pre = self@;
            self.frames.push(Frame { source: path.clone() });
            proof {
                assert(self@.frames =~= pre.frames.push(path@));
                assert(self@.animations =~= pre.animations);
            }
        } else {
            proof {
                assert(self@ =~= old(self)@);
            }
        }
    }
}

} // verus!
