//! The sheet file format: a plain-text encoding of a sheet's frames and
//! animations, with every number written as twenty fixed decimal digits and
//! every string length-prefixed, so no escaping is ever needed. Decoding is
//! specified as the exact inverse of encoding: reading back a file written
//! from a well-formed sheet yields that sheet, which is proved in
//! `lemma_save_reopen_roundtrip`.

use crate::digits::all_digits;
use crate::digits::digits_value;
use crate::digits::fixed_digits;
use crate::digits::lemma_fixed_digits_len;
use crate::digits::lemma_fixed_digits_value;
use crate::digits::pow10;
use crate::sheet::AnimationFrameModel;
use crate::sheet::AnimationModel;
use crate::sheet::SheetModel;
use vstd::prelude::*;

verus! {

/// A number on the wire: exactly twenty decimal digits, zero-padded.
pub open spec fn enc_u64(n: nat) -> Seq<char> {
    fixed_digits(n, 20)
}

/// A string on the wire: its length, then its characters raw.
pub open spec fn enc_str(t: Seq<char>) -> Seq<char> {
    enc_u64(t.len()) + t
}

/// A flag on the wire: one character.
pub open spec fn enc_bool(b: bool) -> Seq<char> {
    if b {
        seq!['1']
    } else {
        seq!['0']
    }
}

/// One timeline step on the wire: the frame path, then the duration.
pub open spec fn enc_anim_frame(f: AnimationFrameModel) -> Seq<char> {
    enc_str(f.frame) + enc_u64(f.duration as nat)
}

/// A timeline on the wire: its steps in order (the count travels with the
/// animation).
pub open spec fn enc_timeline(t: Seq<AnimationFrameModel>) -> Seq<char>
    decreases t.len(),
{
    if t.len() == 0 {
        Seq::empty()
    } else {
        enc_anim_frame(t.first()) + enc_timeline(t.drop_first())
    }
}

/// One animation on the wire: name, looping flag, step count, steps.
pub open spec fn enc_anim(a: AnimationModel) -> Seq<char> {
    enc_str(a.name) + enc_bool(a.is_looping) + enc_u64(a.timeline.len()) + enc_timeline(a.timeline)
}

/// The animation list on the wire, in order.
pub open spec fn enc_anims(s: Seq<AnimationModel>) -> Seq<char>
    decreases s.len(),
{
    if s.len() == 0 {
        Seq::empty()
    } else {
        enc_anim(s.first()) + enc_anims(s.drop_first())
    }
}

/// The frame path list on the wire, in order.
pub open spec fn enc_frames(s: Seq<Seq<char>>) -> Seq<char>
    decreases s.len(),
{
    if s.len() == 0 {
        Seq::empty()
    } else {
        enc_str(s.first()) + enc_frames(s.drop_first())
    }
}

/// A whole sheet on the wire: frame count, frame paths, animation count,
/// animations.
pub open spec fn spec_encode(m: SheetModel) -> Seq<char> {
    enc_u64(m.frames.len()) + enc_frames(m.frames) + enc_u64(m.animations.len()) + enc_anims(
        m.animations,
    )
}

/// Reads a number at `i`: twenty digit characters whose value fits `u64`.
pub open spec fn dec_u64(s: Seq<char>, i: int) -> Option<(nat, int)> {
    if 0 <= i && i + 20 <= s.len() && all_digits(s.subrange(i, i + 20)) && digits_value(
        s.subrange(i, i + 20),
    ) <= u64::MAX {
        Some((digits_value(s.subrange(i, i + 20)), i + 20))
    } else {
        None
    }
}

/// Reads a length-prefixed string at `i`.
pub open spec fn dec_str(s: Seq<char>, i: int) -> Option<(Seq<char>, int)> {
    match dec_u64(s, i) {
        Some((n, j)) => if j + n <= s.len() {
            Some((s.subrange(j, j + n), j + n))
        } else {
            None
        },
        None => None,
    }
}

/// Reads a flag character at `i`.
pub open spec fn dec_bool(s: Seq<char>, i: int) -> Option<(bool, int)> {
    if 0 <= i < s.len() && s[i] == '0' {
        Some((false, i + 1))
    } else if 0 <= i < s.len() && s[i] == '1' {
        Some((true, i + 1))
    } else {
        None
    }
}

/// Reads one timeline step at `i`; the duration must fit `u32`.
pub open spec fn dec_anim_frame(s: Seq<char>, i: int) -> Option<(AnimationFrameModel, int)> {
    match dec_str(s, i) {
        Some((frame, j)) => match dec_u64(s, j) {
            Some((d, k)) => if d <= u32::MAX {
                Some((AnimationFrameModel { frame: frame, duration: d as u32 }, k))
            } else {
                None
            },
            None => None,
        },
        None => None,
    }
}

/// Reads `count` timeline steps at `i`.
pub open spec fn dec_timeline(s: Seq<char>, i: int, count: nat) -> Option<
    (Seq<AnimationFrameModel>, int),
>
    decreases count,
{
    if count == 0 {
        Some((Seq::empty(), i))
    } else {
        match dec_anim_frame(s, i) {
            Some((f, j)) => match dec_timeline(s, j, (count - 1) as nat) {
                Some((rest, k)) => Some((seq![f] + rest, k)),
                None => None,
            },
            None => None,
        }
    }
}

/// Reads one animation at `i`.
pub open spec fn dec_anim(s: Seq<char>, i: int) -> Option<(AnimationModel, int)> {
    match dec_str(s, i) {
        Some((name, j)) => match dec_bool(s, j) {
            Some((looping, k)) => match dec_u64(s, k) {
                Some((count, l)) => match dec_timeline(s, l, count) {
                    Some((timeline, m)) => Some(
                        (AnimationModel { name: name, timeline: timeline, is_looping: looping }, m),
                    ),
                    None => None,
                },
                None => None,
            },
            None => None,
        },
        None => None,
    }
}

/// Reads `count` animations at `i`.
pub open spec fn dec_anims(s: Seq<char>, i: int, count: nat) -> Option<(Seq<AnimationModel>, int)>
    decreases count,
{
    if count == 0 {
        Some((Seq::empty(), i))
    } else {
        match dec_anim(s, i) {
            Some((a, j)) => match dec_anims(s, j, (count - 1) as nat) {
                Some((rest, k)) => Some((seq![a] + rest, k)),
                None => None,
            },
            None => None,
        }
    }
}

/// Reads `count` frame paths at `i`.
pub open spec fn dec_frames(s: Seq<char>, i: int, count: nat) -> Option<(Seq<Seq<char>>, int)>
    decreases count,
{
    if count == 0 {
        Some((Seq::empty(), i))
    } else {
        match dec_str(s, i) {
            Some((f, j)) => match dec_frames(s, j, (count - 1) as nat) {
                Some((rest, k)) => Some((seq![f] + rest, k)),
                None => None,
            },
            None => None,
        }
    }
}

/// Reads a whole sheet from the start of `s`.
pub open spec fn dec_sheet(s: Seq<char>) -> Option<(SheetModel, int)> {
    match dec_u64(s, 0) {
        Some((fc, i)) => match dec_frames(s, i, fc) {
            Some((frames, j)) => match dec_u64(s, j) {
                Some((ac, k)) => match dec_anims(s, k, ac) {
                    Some((anims, l)) => Some(
                        (SheetModel { frames: frames, animations: anims }, l),
                    ),
                    None => None,
                },
                None => None,
            },
            None => None,
        },
        None => None,
    }
}

/// What decoding a sheet file yields: the sheet it holds, provided the whole
/// input is consumed and the result satisfies the sheet invariants (unique
/// frame paths and animation names); anything else is rejected.
pub open spec fn spec_decode(s: Seq<char>) -> Option<SheetModel> {
    match dec_sheet(s) {
        Some((m, end)) => if end == s.len() && m.wf() {
            Some(m)
        } else {
            None
        },
        None => None,
    }
}

/// Every count and string length in the animation fits the wire's number
/// width.
pub open spec fn anim_bounded(a: AnimationModel) -> bool {
    &&& a.name.len() <= u64::MAX
    &&& a.timeline.len() <= u64::MAX
    &&& (forall|j: int| 0 <= j < a.timeline.len() ==> (#[trigger] a.timeline[j]).frame.len()
        <= u64::MAX)
}

/// Every count and string length in the sheet fits the wire's number width.
/// A sheet held in memory always satisfies this: each of these quantities is
/// bounded by a machine word.
pub open spec fn bounded(m: SheetModel) -> bool {
    &&& m.frames.len() <= u64::MAX
    &&& m.animations.len() <= u64::MAX
    &&& (forall|i: int| 0 <= i < m.frames.len() ==> (#[trigger] m.frames[i]).len() <= u64::MAX)
    &&& (forall|i: int|
        0 <= i < m.animations.len() ==> anim_bounded(#[trigger] m.animations[i]))
}

proof fn lemma_pow10_20()
    ensures
        pow10(20) > u64::MAX,
{
    reveal_with_fuel(pow10, 21);
}

/// A number written at any position reads back as itself.
proof fn lemma_rt_u64(prefix: Seq<char>, n: nat, suffix: Seq<char>)
    requires
        n <= u64::MAX,
    ensures
        enc_u64(n).len() == 20,
        dec_u64(prefix + enc_u64(n) + suffix, prefix.len() as int) == Some::<(nat, int)>(
            (n, prefix.len() + 20 as int),
        ),
{
    let s = prefix + enc_u64(n) + suffix;
    let p = prefix.len() as int;
    lemma_fixed_digits_len(n, 20);
    assert(s.subrange(p, p + 20) =~= enc_u64(n));
    lemma_pow10_20();
    lemma_fixed_digits_value(n, 20);
}

/// A string written at any position reads back as itself.
proof fn lemma_rt_str(prefix: Seq<char>, t: Seq<char>, suffix: Seq<char>)
    requires
        t.len() <= u64::MAX,
    ensures
        enc_str(t).len() == 20 + t.len(),
        dec_str(prefix + enc_str(t) + suffix, prefix.len() as int) == Some::<(Seq<char>, int)>(
            (t, (prefix.len() + enc_str(t).len()) as int),
        ),
{
    let s = prefix + enc_str(t) + suffix;
    let p = prefix.len() as int;
    assert(s =~= prefix + enc_u64(t.len()) + (t + suffix));
    lemma_rt_u64(prefix, t.len(), t + suffix);
    lemma_fixed_digits_len(t.len(), 20);
    assert(s.subrange(p + 20, p + 20 + t.len()) =~= t);
}

/// A flag written at any position reads back as itself.
proof fn lemma_rt_bool(prefix: Seq<char>, b: bool, suffix: Seq<char>)
    ensures
        dec_bool(prefix + enc_bool(b) + suffix, prefix.len() as int) == Some::<(bool, int)>(
            (b, (prefix.len() + 1) as int),
        ),
{
    let s = prefix + enc_bool(b) + suffix;
    let p = prefix.len() as int;
    assert(s[p] == enc_bool(b)[0]);
}

/// A timeline step written at any position reads back as itself.
proof fn lemma_rt_anim_frame(prefix: Seq<char>, f: AnimationFrameModel, suffix: Seq<char>)
    requires
        f.frame.len() <= u64::MAX,
    ensures
        enc_anim_frame(f).len() == 40 + f.frame.len(),
        dec_anim_frame(prefix + enc_anim_frame(f) + suffix, prefix.len() as int) == Some::<
            (AnimationFrameModel, int),
        >((f, (prefix.len() + enc_anim_frame(f).len()) as int)),
{
    let s = prefix + enc_anim_frame(f) + suffix;
    assert(s =~= prefix + enc_str(f.frame) + (enc_u64(f.duration as nat) + suffix));
    lemma_rt_str(prefix, f.frame, enc_u64(f.duration as nat) + suffix);
    assert(s =~= (prefix + enc_str(f.frame)) + enc_u64(f.duration as nat) + suffix);
    lemma_rt_u64(prefix + enc_str(f.frame), f.duration as nat, suffix);
    assert(AnimationFrameModel { frame: f.frame, duration: ((f.duration as nat) as u32) } =~= f);
}

/// A timeline written at any position reads back as itself.
proof fn lemma_rt_timeline(prefix: Seq<char>, t: Seq<AnimationFrameModel>, suffix: Seq<char>)
    requires
        forall|j: int| 0 <= j < t.len() ==> (#[trigger] t[j]).frame.len() <= u64::MAX,
    ensures
        dec_timeline(prefix + enc_timeline(t) + suffix, prefix.len() as int, t.len()) == Some::<
            (Seq<AnimationFrameModel>, int),
        >((t, (prefix.len() + enc_timeline(t).len()) as int)),
    decreases t.len(),
{
    let s = prefix + enc_timeline(t) + suffix;
    if t.len() == 0 {
        assert(enc_timeline(t) =~= Seq::<char>::empty());
        assert(Seq::<AnimationFrameModel>::empty() =~= t);
    } else {
        let f = t.first();
        let rest = t.drop_first();
        assert(s =~= prefix + enc_anim_frame(f) + (enc_timeline(rest) + suffix));
        lemma_rt_anim_frame(prefix, f, enc_timeline(rest) + suffix);
        assert(s =~= (prefix + enc_anim_frame(f)) + enc_timeline(rest) + suffix);
        lemma_rt_timeline(prefix + enc_anim_frame(f), rest, suffix);
        assert(seq![f] + rest =~= t);
        assert(enc_timeline(t).len() == enc_anim_frame(f).len() + enc_timeline(rest).len());
    }
}

/// An animation written at any position reads back as itself.
proof fn lemma_rt_anim(prefix: Seq<char>, a: AnimationModel, suffix: Seq<char>)
    requires
        a.name.len() <= u64::MAX,
        a.timeline.len() <= u64::MAX,
        forall|j: int| 0 <= j < a.timeline.len() ==> (#[trigger] a.timeline[j]).frame.len()
            <= u64::MAX,
    ensures
        dec_anim(prefix + enc_anim(a) + suffix, prefix.len() as int) == Some::<
            (AnimationModel, int),
        >((a, (prefix.len() + enc_anim(a).len()) as int)),
{
    let s = prefix + enc_anim(a) + suffix;
    let e_name = enc_str(a.name);
    let e_loop = enc_bool(a.is_looping);
    let e_count = enc_u64(a.timeline.len());
    let e_tl = enc_timeline(a.timeline);
    assert(s =~= prefix + e_name + (e_loop + e_count + e_tl + suffix));
    lemma_rt_str(prefix, a.name, e_loop + e_count + e_tl + suffix);
    assert(s =~= (prefix + e_name) + e_loop + (e_count + e_tl + suffix));
    lemma_rt_bool(prefix + e_name, a.is_looping, e_count + e_tl + suffix);
    assert(s =~= (prefix + e_name + e_loop) + e_count + (e_tl + suffix));
    lemma_rt_u64(prefix + e_name + e_loop, a.timeline.len(), e_tl + suffix);
    assert(s =~= (prefix + e_name + e_loop + e_count) + e_tl + suffix);
    lemma_rt_timeline(prefix + e_name + e_loop + e_count, a.timeline, suffix);
    assert(AnimationModel { name: a.name, timeline: a.timeline, is_looping: a.is_looping } =~= a);
    assert(enc_anim(a).len() == e_name.len() + 1 + 20 + e_tl.len());
}

/// An animation list written at any position reads back as itself.
#[verifier::rlimit(50)]
proof fn lemma_rt_anims(prefix: Seq<char>, t: Seq<AnimationModel>, suffix: Seq<char>)
    requires
        forall|i: int| 0 <= i < t.len() ==> anim_bounded(#[trigger] t[i]),
    ensures
        dec_anims(prefix + enc_anims(t) + suffix, prefix.len() as int, t.len()) == Some::<
            (Seq<AnimationModel>, int),
        >((t, (prefix.len() + enc_anims(t).len()) as int)),
    decreases t.len(),
{
    let s = prefix + enc_anims(t) + suffix;
    if t.len() == 0 {
        assert(enc_anims(t) =~= Seq::<char>::empty());
        assert(Seq::<AnimationModel>::empty() =~= t);
    } else {
        let a = t.first();
        let rest = t.drop_first();
        assert(s =~= prefix + enc_anim(a) + (enc_anims(rest) + suffix));
        lemma_rt_anim(prefix, a, enc_anims(rest) + suffix);
        assert(s =~= (prefix + enc_anim(a)) + enc_anims(rest) + suffix);
        lemma_rt_anims(prefix + enc_anim(a), rest, suffix);
        assert(seq![a] + rest =~= t);
    }
}

/// A frame path list written at any position reads back as itself.
proof fn lemma_rt_frames(prefix: Seq<char>, t: Seq<Seq<char>>, suffix: Seq<char>)
    requires
        forall|i: int| 0 <= i < t.len() ==> (#[trigger] t[i]).len() <= u64::MAX,
    ensures
        dec_frames(prefix + enc_frames(t) + suffix, prefix.len() as int, t.len()) == Some::<
            (Seq<Seq<char>>, int),
        >((t, (prefix.len() + enc_frames(t).len()) as int)),
    decreases t.len(),
{
    let s = prefix + enc_frames(t) + suffix;
    if t.len() == 0 {
        assert(enc_frames(t) =~= Seq::<char>::empty());
        assert(Seq::<Seq<char>>::empty() =~= t);
    } else {
        let f = t.first();
        let rest = t.drop_first();
        assert(s =~= prefix + enc_str(f) + (enc_frames(rest) + suffix));
        lemma_rt_str(prefix, f, enc_frames(rest) + suffix);
        assert(s =~= (prefix + enc_str(f)) + enc_frames(rest) + suffix);
        lemma_rt_frames(prefix + enc_str(f), rest, suffix);
        assert(seq![f] + rest =~= t);
    }
}

/// Saving a sheet and reading the file back yields the sheet that was saved:
/// decoding is the exact inverse of encoding on every well-formed sheet whose
/// sizes fit in memory.
pub proof fn lemma_save_reopen_roundtrip(m: SheetModel)
    requires
        m.wf(),
        bounded(m),
    ensures
        spec_decode(spec_encode(m)) == Some(m),
{
    let s = spec_encode(m);
    let e_fc = enc_u64(m.frames.len());
    let e_f = enc_frames(m.frames);
    let e_ac = enc_u64(m.animations.len());
    let e_a = enc_anims(m.animations);
    assert(s =~= Seq::<char>::empty() + e_fc + (e_f + e_ac + e_a));
    lemma_rt_u64(Seq::empty(), m.frames.len(), e_f + e_ac + e_a);
    assert(Seq::<char>::empty().len() == 0);
    assert(s =~= e_fc + e_f + (e_ac + e_a));
    lemma_rt_frames(e_fc, m.frames, e_ac + e_a);
    assert(s =~= (e_fc + e_f) + e_ac + e_a);
    lemma_rt_u64(e_fc + e_f, m.animations.len(), e_a);
    assert(s =~= (e_fc + e_f + e_ac) + e_a + Seq::<char>::empty());
    lemma_rt_anims(e_fc + e_f + e_ac, m.animations, Seq::empty());
    assert(dec_sheet(s) == Some::<(SheetModel, int)>(
        (SheetModel { frames: m.frames, animations: m.animations }, s.len() as int),
    ));
    assert(SheetModel { frames: m.frames, animations: m.animations } =~= m);
}

} // verus!
