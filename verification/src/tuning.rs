//! Data-driven tuning of Mario's feel.
//!
//! The numbers that decide how Mario moves live here rather than as hard
//! constants baked into the physics. A [`Tuning`] can be built from a small
//! `key = value` text block, so a level pack can retune the game without a
//! recompile. The defaults are the values pinned in the physics module.
use crate::engine::physics::{
    BOUNCE_CUT, FRICTION, GLIDE_CUT, GLIDE_FRAMES, GLIDE_VELOCITY, GRAVITY, JUMP_CUT, JUMP_VELOCITY,
    MAX_FALL_SPEED, MAX_RISE_FRAMES, MAX_WALK_SPEED, RISE_DRIFT, STOMP_BOUNCE, WALK_ACCEL,
};
use crate::text::{
    cut_at, decimal, find_char, line_spans, parse_i32, parse_i32_at, parse_u32, parse_u32_at,
    pieces, push_decimal, span_texts, spells, trim, trim_bounds, chars_of,
};
use vstd::prelude::*;
use vstd::string::StrSliceExecFns;
use vstd::string::StringExecFns;

verus! {

/// The starting value of the level timer.
pub const DEFAULT_TIMER_START: u32 = 400;

/// The largest magnitude a tuning value may have: a quarter of
/// `VELOCITY_LIMIT`, so that a velocity plus one frame's acceleration, cut or
/// bounce never leaves the velocities a step is proved for.
pub const TUNING_LIMIT: i32 = 0x100_0000;

#[derive(Debug, Clone, Copy, PartialEq, Eq, Structural)]
pub struct Tuning {
    pub walk_accel: i32,
    pub friction: i32,
    pub max_walk_speed: i32,
    pub gravity: i32,
    pub max_fall_speed: i32,
    pub jump_velocity: i32,
    pub rise_drift: i32,
    pub max_rise_frames: i32,
    pub jump_cut: i32,
    pub glide_velocity: i32,
    pub glide_cut: i32,
    pub glide_frames: i32,
    pub bounce_cut: i32,
    pub stomp_bounce: i32,
    pub timer_start: u32,
}

/// `v` is a tuning value the physics can use.
pub open spec fn in_tuning_range(v: i32) -> bool {
    -TUNING_LIMIT <= v <= TUNING_LIMIT
}

impl Tuning {
    /// Every value is in range, and the walking cap is not negative (it is
    /// the upper end of a clamp whose lower end is its negation).
    pub open spec fn sane(self) -> bool {
        &&& in_tuning_range(self.walk_accel)
        &&& in_tuning_range(self.friction)
        &&& 0 <= self.max_walk_speed <= TUNING_LIMIT
        &&& in_tuning_range(self.gravity)
        &&& in_tuning_range(self.max_fall_speed)
        &&& in_tuning_range(self.jump_velocity)
        &&& in_tuning_range(self.rise_drift)
        &&& in_tuning_range(self.max_rise_frames)
        &&& in_tuning_range(self.jump_cut)
        &&& in_tuning_range(self.glide_velocity)
        &&& in_tuning_range(self.glide_cut)
        &&& in_tuning_range(self.glide_frames)
        &&& in_tuning_range(self.bounce_cut)
        &&& in_tuning_range(self.stomp_bounce)
    }

    /// The values pinned in the physics module.
    pub open spec fn pinned() -> Tuning {
        Tuning {
            walk_accel: 43,
            friction: 43,
            max_walk_speed: 256,
            gravity: 76,
            max_fall_speed: 640,
            jump_velocity: 602,
            rise_drift: 10,
            max_rise_frames: 12,
            jump_cut: 76,
            glide_velocity: 384,
            glide_cut: 32,
            glide_frames: 12,
            bounce_cut: 29,
            stomp_bounce: 360,
            timer_start: 400,
        }
    }

    /// Whether the values fit in range, computed.
    pub fn is_sane(&self) -> (r: bool)
        ensures
            r == self.sane(),
    {
        let l = TUNING_LIMIT;
        -l <= self.walk_accel && self.walk_accel <= l && -l <= self.friction && self.friction <= l && 0
            <= self.max_walk_speed && self.max_walk_speed <= l && -l <= self.gravity && self.gravity <= l
            && -l <= self.max_fall_speed && self.max_fall_speed <= l && -l <= self.jump_velocity
            && self.jump_velocity <= l && -l <= self.rise_drift && self.rise_drift <= l && -l
            <= self.max_rise_frames && self.max_rise_frames <= l && -l <= self.jump_cut && self.jump_cut
            <= l && -l <= self.glide_velocity && self.glide_velocity <= l && -l <= self.glide_cut
            && self.glide_cut <= l && -l <= self.glide_frames && self.glide_frames <= l && -l
            <= self.bounce_cut && self.bounce_cut <= l && -l <= self.stomp_bounce && self.stomp_bounce
            <= l
    }
}

impl Default for Tuning {
    fn default() -> (r: Self)
        ensures
            r == Tuning::pinned(),
            r.sane(),
    {
        Tuning {
            walk_accel: WALK_ACCEL,
            friction: FRICTION,
            max_walk_speed: MAX_WALK_SPEED,
            gravity: GRAVITY,
            max_fall_speed: MAX_FALL_SPEED,
            jump_velocity: JUMP_VELOCITY,
            rise_drift: RISE_DRIFT,
            max_rise_frames: MAX_RISE_FRAMES,
            jump_cut: JUMP_CUT,
            glide_velocity: GLIDE_VELOCITY,
            glide_cut: GLIDE_CUT,
            glide_frames: GLIDE_FRAMES,
            bounce_cut: BOUNCE_CUT,
            stomp_bounce: STOMP_BOUNCE,
            timer_start: DEFAULT_TIMER_START,
        }
    }
}

/// The error text for line `no`: "line N" and then `rest`.
pub open spec fn line_message(no: nat, rest: Seq<char>) -> Seq<char> {
    "line "@ + decimal(no) + rest
}

/// The error for a line with no `=`.
pub open spec fn missing_equals(no: nat) -> Seq<char> {
    line_message(no, ": expected key = value"@)
}

/// The error for a value that is not a number of the key's type.
pub open spec fn bad_number(no: nat, value: Seq<char>) -> Seq<char> {
    line_message(no, ": bad number '"@ + value + "'"@)
}

/// The error for a key that names no setting.
pub open spec fn unknown_key(no: nat, key: Seq<char>) -> Seq<char> {
    line_message(no, ": unknown key '"@ + key + "'"@)
}

/// The keys whose values are signed.
pub open spec fn is_signed_key(key: Seq<char>) -> bool {
    ||| key == "walk_accel"@
    ||| key == "friction"@
    ||| key == "max_walk_speed"@
    ||| key == "gravity"@
    ||| key == "max_fall_speed"@
    ||| key == "jump_velocity"@
    ||| key == "jump_cut"@
    ||| key == "stomp_bounce"@
}

/// `t` with the signed setting `key` set to `v`.
pub open spec fn with_signed(t: Tuning, key: Seq<char>, v: i32) -> Tuning {
    if key == "walk_accel"@ {
        Tuning { walk_accel: v, ..t }
    } else if key == "friction"@ {
        Tuning { friction: v, ..t }
    } else if key == "max_walk_speed"@ {
        Tuning { max_walk_speed: v, ..t }
    } else if key == "gravity"@ {
        Tuning { gravity: v, ..t }
    } else if key == "max_fall_speed"@ {
        Tuning { max_fall_speed: v, ..t }
    } else if key == "jump_velocity"@ {
        Tuning { jump_velocity: v, ..t }
    } else if key == "jump_cut"@ {
        Tuning { jump_cut: v, ..t }
    } else {
        Tuning { stomp_bounce: v, ..t }
    }
}

/// The outcome of the setting `key = value` on line `no`.
#[verifier::opaque]
pub open spec fn with_setting(t: Tuning, key: Seq<char>, value: Seq<char>, no: nat) -> Result<Tuning, Seq<char>> {
    if is_signed_key(key) {
        match parse_i32(value) {
            Some(v) => Ok(with_signed(t, key, v)),
            None => Err(bad_number(no, value)),
        }
    } else if key == "timer_start"@ {
        match parse_u32(value) {
            Some(v) => Ok(Tuning { timer_start: v, ..t }),
            None => Err(bad_number(no, value)),
        }
    } else {
        Err(unknown_key(no, key))
    }
}

/// The outcome of line `no` of a tuning text: its part before any `#`,
/// trimmed, is blank (nothing changes) or a `key = value` setting.
pub open spec fn with_line(t: Tuning, line: Seq<char>, no: nat) -> Result<Tuning, Seq<char>> {
    let l = trim(line.take(cut_at(line, '#')));
    let e = cut_at(l, '=');
    if l.len() == 0 {
        Ok(t)
    } else if e == l.len() {
        Err(missing_equals(no))
    } else {
        with_setting(t, trim(l.take(e)), trim(l.skip(e + 1)), no)
    }
}

/// The outcome of the lines from index `i` on, numbered from one, starting
/// from `t`; the first error stops it.
pub open spec fn with_lines(t: Tuning, lines: Seq<Seq<char>>, i: nat) -> Result<Tuning, Seq<char>>
    decreases lines.len() - i,
{
    if i >= lines.len() {
        Ok(t)
    } else {
        match with_line(t, lines[i as int], i + 1) {
            Ok(next) => with_lines(next, lines, i + 1),
            Err(e) => Err(e),
        }
    }
}

/// The outcome of a whole tuning text, starting from the defaults.
pub open spec fn tuning_from_text(text: Seq<char>) -> Result<Tuning, Seq<char>> {
    with_lines(Tuning::pinned(), pieces(text, '\n'), 0)
}

/// A parse result with its error text as a sequence of characters.
pub open spec fn outcome(r: Result<Tuning, String>) -> Result<Tuning, Seq<char>> {
    match r {
        Ok(t) => Ok(t),
        Err(e) => Err(e@),
    }
}

/// "line N" followed by `rest`.
fn line_error(no: u64, rest: &str) -> (r: String)
    ensures
        r@ == line_message(no as nat, rest@),
{
    let mut msg = String::from_str("line ");
    push_decimal(&mut msg, no);
    msg.append(rest);
    proof {
        reveal_strlit("line ");
    }
    msg
}

/// "line N", `before`, the quoted text, and a closing quote.
fn line_error_quoting(no: u64, before: &str, quoted: &str) -> (r: String)
    ensures
        r@ == line_message(no as nat, before@ + quoted@ + "'"@),
{
    let mut msg = line_error(no, before);
    msg.append(quoted);
    msg.append("'");
    proof {
        assert(msg@ =~= line_message(no as nat, before@ + quoted@ + "'"@));
    }
    msg
}

impl Tuning {
    /// Apply line `no`, the characters `cs[from..to]`, to `self`.
    fn apply_line(self, text: &str, cs: &Vec<char>, from: usize, to: usize, no: u64) -> (r: Result<Tuning, String>)
        requires
            cs@ == text@,
            from <= to <= cs@.len(),
        ensures
            outcome(r) == with_line(self, cs@.subrange(from as int, to as int), no as nat),
    {
        let ghost line = cs@.subrange(from as int, to as int);
        let hash = find_char(cs, from, to, '#');
        assert(line.take(cut_at(line, '#')) =~= cs@.subrange(from as int, hash as int));
        let (a, b) = trim_bounds(cs, from, hash);
        let ghost l = cs@.subrange(a as int, b as int);
        assert(l == trim(line.take(cut_at(line, '#'))));
        if a == b {
            assert(l.len() == 0);
            return Ok(self);
        }
        let eq = find_char(cs, a, b, '=');
        assert(eq - a == cut_at(l, '='));
        if eq == b {
            assert(cut_at(l, '=') == l.len());
            let r = Err(line_error(no, ": expected key = value"));
            proof {
                reveal_strlit(": expected key = value");
            }
            return r;
        }
        proof {
            assert(l.take(eq - a) =~= cs@.subrange(a as int, eq as int));
            assert(l.skip(eq - a + 1) =~= cs@.subrange(eq + 1, b as int));
        }
        let (ka, kb) = trim_bounds(cs, a, eq);
        let (va, vb) = trim_bounds(cs, eq + 1, b);
        self.apply_setting(text, cs, ka, kb, va, vb, no)
    }

    /// Apply the setting `cs[ka..kb] = cs[va..vb]` of line `no` to `self`.
    fn apply_setting(self, text: &str, cs: &Vec<char>, ka: usize, kb: usize, va: usize, vb: usize, no: u64) -> (r: Result<Tuning, String>)
        requires
            cs@ == text@,
            ka <= kb <= cs@.len(),
            va <= vb <= cs@.len(),
        ensures
            outcome(r) == with_setting(self, cs@.subrange(ka as int, kb as int), cs@.subrange(va as int, vb as int), no as nat),
    {
        reveal(with_setting);
        let mut t = self;
        let signed = if spells(cs, ka, kb, "walk_accel") {
            1u8
        } else if spells(cs, ka, kb, "friction") {
            2
        } else if spells(cs, ka, kb, "max_walk_speed") {
            3
        } else if spells(cs, ka, kb, "gravity") {
            4
        } else if spells(cs, ka, kb, "max_fall_speed") {
            5
        } else if spells(cs, ka, kb, "jump_velocity") {
            6
        } else if spells(cs, ka, kb, "jump_cut") {
            7
        } else if spells(cs, ka, kb, "stomp_bounce") {
            8
        } else {
            0
        };
        if signed != 0 {
            match parse_i32_at(cs, va, vb) {
                Some(v) => {
                    if signed == 1 {
                        t.walk_accel = v;
                    } else if signed == 2 {
                        t.friction = v;
                    } else if signed == 3 {
                        t.max_walk_speed = v;
                    } else if signed == 4 {
                        t.gravity = v;
                    } else if signed == 5 {
                        t.max_fall_speed = v;
                    } else if signed == 6 {
                        t.jump_velocity = v;
                    } else if signed == 7 {
                        t.jump_cut = v;
                    } else {
                        t.stomp_bounce = v;
                    }
                    Ok(t)
                },
                None => Err(line_error_quoting(no, ": bad number '", text.substring_char(va, vb))),
            }
        } else if spells(cs, ka, kb, "timer_start") {
            match parse_u32_at(cs, va, vb) {
                Some(v) => {
                    t.timer_start = v;
                    Ok(t)
                },
                None => Err(line_error_quoting(no, ": bad number '", text.substring_char(va, vb))),
            }
        } else {
            Err(line_error_quoting(no, ": unknown key '", text.substring_char(ka, kb)))
        }
    }

    /// Parse tuning overrides from `key = value` lines. Blank lines and lines
    /// starting with `#` are ignored. Unset keys keep their default. An unknown
    /// key or unparseable value is an error, so a typo is reported.
    #[verifier::rlimit(40)]
    pub fn from_text(text: &str) -> (r: Result<Self, String>)
        ensures
            outcome(r) == tuning_from_text(text@),
    {
        let cs = chars_of(text);
        let spans = line_spans(&cs);
        let ghost lines = pieces(cs@, '\n');
        let mut t = Tuning::default();
        let mut i: usize = 0;
        while i < spans.len()
            invariant
                i <= spans@.len(),
                cs@ == text@,
                span_texts(cs@, spans@) == lines,
                lines == pieces(text@, '\n'),
                forall|j: int| #![trigger spans@[j]] 0 <= j < spans@.len() ==> spans@[j].0 <= spans@[j].1 && spans@[j].1 <= cs@.len(),
                with_lines(t, lines, i as nat) == tuning_from_text(text@),
            decreases spans@.len() - i,
        {
            let (from, to) = spans[i];
            assert(lines[i as int] == cs@.subrange(from as int, to as int));
            match t.apply_line(text, &cs, from, to, (i + 1) as u64) {
                Ok(next) => t = next,
                Err(e) => return Err(e),
            }
            i = i + 1;
        }
        Ok(t)
    }
}

} // verus!
