use crate::game::{mode_code, Game, GameMode, GameType};
use crate::input::{idle_input, Input, InputDirection, InputRotation};
use crate::score::Score;
use vstd::prelude::*;
use vstd::string::StringSliceAdditionalSpecFns;
use vstd::utf8::{decode_utf8, encode_utf8, valid_utf8};

verus! {

/// The only format version this codec reads and writes.
pub const VERSION: u8 = 1;

/// The longest time, in milliseconds, that one frame can span.
pub const MAX_DELTA: u16 = 65535;

pub open spec fn rotation_bits(r: InputRotation) -> int {
    match r {
        InputRotation::Neutral => 0,
        InputRotation::Quarter => 1,
        InputRotation::TwoQuarter => 2,
        InputRotation::ThreeQuarter => 3,
    }
}

pub open spec fn direction_bits(d: InputDirection) -> int {
    match d {
        InputDirection::Neutral => 0,
        InputDirection::Left => 1,
        InputDirection::Right => 2,
        InputDirection::SnapLeft => 5,
        InputDirection::SnapRight => 6,
    }
}

/// An input in one byte: bit 7 hold, bit 6 hard drop, bit 5 soft drop, bits
/// 4-3 rotation, bits 2-0 direction; a quit is the byte 0xFF.
pub open spec fn pack(i: Input) -> u8 {
    if i.quit {
        255
    } else {
        ((if i.hold { 128int } else { 0int }) + (if i.hard_drop { 64int } else { 0int }) + (
        if i.soft_drop {
            32int
        } else {
            0int
        }) + 8 * rotation_bits(i.rotation) + direction_bits(i.direction)) as u8
    }
}

/// The input a byte stands for: 0xFF is a quit and nothing else; otherwise
/// unknown rotation or direction bits read as none.
pub open spec fn unpack(b: u8) -> Input {
    let r = (b / 8) % 4;
    let d = b % 8;
    if b == 255 {
        Input { quit: true, ..idle_input() }
    } else {
        Input {
            hold: b / 128 == 1,
            quit: false,
            hard_drop: (b / 64) % 2 == 1,
            soft_drop: (b / 32) % 2 == 1,
            rotation: if r == 1 {
                InputRotation::Quarter
            } else if r == 2 {
                InputRotation::TwoQuarter
            } else if r == 3 {
                InputRotation::ThreeQuarter
            } else {
                InputRotation::Neutral
            },
            direction: if d == 1 {
                InputDirection::Left
            } else if d == 2 {
                InputDirection::Right
            } else if d == 5 {
                InputDirection::SnapLeft
            } else if d == 6 {
                InputDirection::SnapRight
            } else {
                InputDirection::Neutral
            },
        }
    }
}

/// A recorded event: milliseconds since the previous one, and the packed input.
#[derive(Clone, Copy, Debug, PartialEq, Eq, Structural)]
pub struct RecorderFrame {
    pub time: u16,
    pub input: u8,
}

/// A replayed event: milliseconds since the start of the session, and the input.
#[derive(Clone, Copy, Debug, PartialEq, Eq, Structural)]
pub struct Frame {
    pub time: u128,
    pub input: Input,
}

/// The sum of the times of `frames`.
pub open spec fn total_time(frames: Seq<RecorderFrame>) -> int
    decreases frames.len(),
{
    if frames.len() == 0 {
        0
    } else {
        total_time(frames.drop_last()) + frames.last().time
    }
}

/// Each recorded event at its time from the start, as it is replayed.
pub open spec fn replayed(frames: Seq<RecorderFrame>) -> Seq<Frame> {
    Seq::new(
        frames.len(),
        |k: int|
            Frame { time: total_time(frames.subrange(0, k + 1)) as u128, input: unpack(frames[k].input) },
    )
}

/// The eight bytes of `n`, most significant first.
pub open spec fn be_bytes(n: u64) -> Seq<u8> {
    seq![
        (n >> 56u64) as u8,
        (n >> 48u64) as u8,
        (n >> 40u64) as u8,
        (n >> 32u64) as u8,
        (n >> 24u64) as u8,
        (n >> 16u64) as u8,
        (n >> 8u64) as u8,
        n as u8,
    ]
}

/// The number whose bytes, most significant first, are `b[at..at + 8]`.
pub open spec fn from_be_bytes(b: Seq<u8>, at: int) -> u64 {
    (b[at] as u64) << 56u64 | (b[at + 1] as u64) << 48u64 | (b[at + 2] as u64) << 40u64 | (b[at
        + 3] as u64) << 32u64 | (b[at + 4] as u64) << 24u64 | (b[at + 5] as u64) << 16u64 | (b[at
        + 6] as u64) << 8u64 | (b[at + 7] as u64)
}

/// Three bytes per frame: the time, high byte first, then the input.
pub open spec fn frame_bytes(frames: Seq<RecorderFrame>) -> Seq<u8> {
    Seq::new(
        3 * frames.len(),
        |i: int|
            if i % 3 == 0 {
                (frames[i / 3].time / 256) as u8
            } else if i % 3 == 1 {
                (frames[i / 3].time % 256) as u8
            } else {
                frames[i / 3].input
            },
    )
}

/// The frames in `b`: one per complete group of three bytes.
pub open spec fn frames_of_bytes(b: Seq<u8>) -> Seq<RecorderFrame> {
    Seq::new(
        b.len() / 3,
        |k: int| RecorderFrame { time: (b[3 * k] * 256 + b[3 * k + 1]) as u16, input: b[3 * k + 2] },
    )
}

/// A whole recording: the name's bytes and a newline, the version, the mode,
/// the mode's target, score, lines, duration, seed and end time, then the
/// frames.
pub open spec fn encoded(
    name: Seq<u8>,
    kind: GameType,
    score: Score,
    duration: u64,
    seed: u64,
    end_time: i64,
    frames: Seq<RecorderFrame>,
) -> Seq<u8> {
    name + seq![10u8, VERSION, mode_code(kind.mode)] + be_bytes(kind.count) + be_bytes(score.score)
        + be_bytes(score.lines) + be_bytes(duration) + be_bytes(seed) + be_bytes(end_time as u64)
        + frame_bytes(frames)
}

/// What goes wrong when a buffer is read as a recording.
#[derive(Clone, Copy, Debug, PartialEq, Eq, Structural)]
pub enum ReplayError {
    /// No newline ends the name, or the name is not UTF-8.
    UsernameNotFound,
    /// The buffer ends inside the fixed-width fields.
    BufferTooShort,
    /// The version byte is not one this codec reads.
    UnsupportedVersion,
    /// The mode byte names no mode.
    UnknownMode,
}

/// What a recording holds.
pub struct ReplayFields {
    pub username: Seq<char>,
    pub version: u8,
    pub kind: GameType,
    pub score: Score,
    pub duration: u64,
    pub time_stamp: i64,
    pub seed: u64,
    pub frames: Seq<Frame>,
}

/// The characters with Unicode's White_Space property.
pub open spec fn is_white_space(c: char) -> bool {
    let v = c as u32;
    ||| 0x09 <= v <= 0x0D
    ||| v == 0x20
    ||| v == 0x85
    ||| v == 0xA0
    ||| v == 0x1680
    ||| 0x2000 <= v <= 0x200A
    ||| v == 0x2028
    ||| v == 0x2029
    ||| v == 0x202F
    ||| v == 0x205F
    ||| v == 0x3000
}

/// How many white space characters `s` starts with.
pub open spec fn leading_white(s: Seq<char>) -> int
    decreases s.len(),
{
    if s.len() > 0 && is_white_space(s[0]) {
        1 + leading_white(s.drop_first())
    } else {
        0
    }
}

/// How many white space characters `s` ends with.
pub open spec fn trailing_white(s: Seq<char>) -> int
    decreases s.len(),
{
    if s.len() > 0 && is_white_space(s.last()) {
        1 + trailing_white(s.drop_last())
    } else {
        0
    }
}

/// `s` with white space at either end taken off.
pub open spec fn trimmed(s: Seq<char>) -> Seq<char> {
    if leading_white(s) == s.len() {
        Seq::empty()
    } else {
        s.subrange(leading_white(s), s.len() - trailing_white(s))
    }
}

/// `i` is the first newline in `b`.
pub open spec fn first_newline(b: Seq<u8>, i: int) -> bool {
    0 <= i < b.len() && b[i] == 10 && forall|j: int| 0 <= j < i ==> b[j] != 10
}

/// The number of bytes between the newline and the frames.
pub open spec fn header_len() -> int {
    50
}

/// How `b` reads as a recording whose name ends at the newline `nl`.
pub open spec fn decoded_after(b: Seq<u8>, nl: int) -> Result<ReplayFields, ReplayError> {
    let name = b.subrange(0, nl);
    let h = nl + 1;
    if !valid_utf8(name) {
        Err(ReplayError::UsernameNotFound)
    } else if b.len() < h + header_len() {
        Err(ReplayError::BufferTooShort)
    } else if b[h] != VERSION {
        Err(ReplayError::UnsupportedVersion)
    } else if b[h + 1] > 2 {
        Err(ReplayError::UnknownMode)
    } else {
        let mode = if b[h + 1] == 0 {
            GameMode::Marathon
        } else if b[h + 1] == 1 {
            GameMode::Lines
        } else {
            GameMode::Time
        };
        Ok(
            ReplayFields {
                username: trimmed(decode_utf8(name)),
                version: b[h],
                kind: GameType { mode, count: from_be_bytes(b, h + 2) },
                score: Score { score: from_be_bytes(b, h + 10), lines: from_be_bytes(b, h + 18) },
                duration: from_be_bytes(b, h + 26),
                seed: from_be_bytes(b, h + 34),
                time_stamp: from_be_bytes(b, h + 42) as i64,
                frames: replayed(frames_of_bytes(b.subrange(h + header_len(), b.len() as int))),
            },
        )
    }
}

/// How `b` reads as a recording.
pub open spec fn decoded(b: Seq<u8>) -> Result<ReplayFields, ReplayError> {
    if exists|i: int| first_newline(b, i) {
        decoded_after(b, choose|i: int| first_newline(b, i))
    } else {
        Err(ReplayError::UsernameNotFound)
    }
}

/// Relies on std's `String::from_utf8`: it succeeds exactly when the bytes are
/// valid UTF-8, and the string then holds the characters they encode.
#[verifier::external_body]
fn utf8_string(bytes: Vec<u8>) -> (r: Option<String>)
    ensures
        r is Some <==> valid_utf8(bytes@),
        r matches Some(s) ==> s@ == decode_utf8(bytes@),
{
    String::from_utf8(bytes).ok()
}

/// Relies on std's `str::trim`: the characters with Unicode's White_Space
/// property taken off both ends.
#[verifier::external_body]
fn trim_name(s: &String) -> (r: String)
    ensures
        r@ == trimmed(s@),
{
    s.trim().to_string()
}

proof fn lemma_be_round_trip(n: u64)
    ensures
        from_be_bytes(be_bytes(n), 0) == n,
{
    let b = be_bytes(n);
    assert(((((n >> 56u64) as u8) as u64) << 56u64 | (((n >> 48u64) as u8) as u64) << 48u64 | (((n
        >> 40u64) as u8) as u64) << 40u64 | (((n >> 32u64) as u8) as u64) << 32u64 | (((n
        >> 24u64) as u8) as u64) << 24u64 | (((n >> 16u64) as u8) as u64) << 16u64 | (((n
        >> 8u64) as u8) as u64) << 8u64 | ((n as u8) as u64)) == n) by (bit_vector);
}

proof fn lemma_be_at(b: Seq<u8>, at: int, n: u64)
    requires
        0 <= at,
        at + 8 <= b.len(),
        b.subrange(at, at + 8) == be_bytes(n),
    ensures
        from_be_bytes(b, at) == n,
{
    lemma_be_round_trip(n);
    let e = be_bytes(n);
    assert(b[at] == e[0] && b[at + 1] == e[1] && b[at + 2] == e[2] && b[at + 3] == e[3]);
    assert(b[at + 4] == e[4] && b[at + 5] == e[5] && b[at + 6] == e[6] && b[at + 7] == e[7]);
}

proof fn lemma_be_in(pre: Seq<u8>, n: u64)
    ensures
        from_be_bytes(pre + be_bytes(n), pre.len() as int) == n,
{
    let s = pre + be_bytes(n);
    assert(s.subrange(pre.len() as int, pre.len() + 8int) =~= be_bytes(n));
    lemma_be_at(s, pre.len() as int, n);
}

/// A number read from a prefix of `b` is read the same from `b`.
proof fn lemma_prefix_reads(b: Seq<u8>, s: Seq<u8>, at: int)
    requires
        s.len() <= b.len(),
        forall|i: int| 0 <= i < s.len() ==> b[i] == s[i],
        0 <= at,
        at + 8 <= s.len(),
    ensures
        from_be_bytes(b, at) == from_be_bytes(s, at),
{
    assert(b[at] == s[at] && b[at + 1] == s[at + 1] && b[at + 2] == s[at + 2] && b[at + 3] == s[at
        + 3]);
    assert(b[at + 4] == s[at + 4] && b[at + 5] == s[at + 5] && b[at + 6] == s[at + 6] && b[at + 7]
        == s[at + 7]);
}

proof fn lemma_signed_round_trip(x: i64)
    ensures
        ((x as u64) as i64) == x,
{
    assert(((x as u64) as i64) == x) by (bit_vector);
}

/// Packing turns a quit into a quit and nothing else, and keeps every other
/// input exactly.
pub proof fn lemma_pack_round_trip(i: Input)
    ensures
        i.quit ==> unpack(pack(i)) == (Input { quit: true, ..idle_input() }),
        !i.quit ==> unpack(pack(i)) == i,
{
}

fn push_be_bytes(buf: &mut Vec<u8>, n: u64)
    ensures
        final(buf)@ == old(buf)@ + be_bytes(n),
{
    buf.push((n >> 56) as u8);
    buf.push((n >> 48) as u8);
    buf.push((n >> 40) as u8);
    buf.push((n >> 32) as u8);
    buf.push((n >> 24) as u8);
    buf.push((n >> 16) as u8);
    buf.push((n >> 8) as u8);
    buf.push(n as u8);
    assert(buf@ =~= old(buf)@ + be_bytes(n));
}

fn read_be_bytes(b: &Vec<u8>, at: usize) -> (r: u64)
    requires
        at + 8 <= b@.len(),
    ensures
        r == from_be_bytes(b@, at as int),
{
    let _ = b.len();
    (b[at] as u64) << 56 | (b[at + 1] as u64) << 48 | (b[at + 2] as u64) << 40 | (b[at + 3] as u64)
        << 32 | (b[at + 4] as u64) << 24 | (b[at + 5] as u64) << 16 | (b[at + 6] as u64) << 8 | (b[at
        + 7] as u64)
}

impl RecorderFrame {
    pub fn new(delta_time: u16, input: Input) -> (r: Self)
        ensures
            r == (RecorderFrame { time: delta_time, input: pack(input) }),
    {
        let packed: u8 = if input.quit {
            255
        } else {
            let mut b: u8 = 0;
            if input.hold {
                b = b + 128;
            }
            if input.hard_drop {
                b = b + 64;
            }
            if input.soft_drop {
                b = b + 32;
            }
            b = b + match input.rotation {
                InputRotation::Neutral => 0,
                InputRotation::Quarter => 8,
                InputRotation::TwoQuarter => 16,
                InputRotation::ThreeQuarter => 24,
            };
            b = b + match input.direction {
                InputDirection::Neutral => 0,
                InputDirection::Left => 1,
                InputDirection::Right => 2,
                InputDirection::SnapLeft => 5,
                InputDirection::SnapRight => 6,
            };
            b
        };
        RecorderFrame { time: delta_time, input: packed }
    }

    /// The frame held by three bytes: the time, high byte first, then the input.
    pub fn from_bytes(high: u8, low: u8, input: u8) -> (r: Self)
        ensures
            r == (RecorderFrame { time: (high * 256 + low) as u16, input }),
    {
        RecorderFrame { time: high as u16 * 256 + low as u16, input }
    }

    pub fn input(&self) -> (r: Input)
        ensures
            r == unpack(self.input),
    {
        let b = self.input;
        if b == 255 {
            return Input { quit: true, ..Input::idle() };
        }
        let r = (b / 8) % 4;
        let d = b % 8;
        Input {
            hold: b / 128 == 1,
            quit: false,
            hard_drop: (b / 64) % 2 == 1,
            soft_drop: (b / 32) % 2 == 1,
            rotation: if r == 1 {
                InputRotation::Quarter
            } else if r == 2 {
                InputRotation::TwoQuarter
            } else if r == 3 {
                InputRotation::ThreeQuarter
            } else {
                InputRotation::Neutral
            },
            direction: if d == 1 {
                InputDirection::Left
            } else if d == 2 {
                InputDirection::Right
            } else if d == 5 {
                InputDirection::SnapLeft
            } else if d == 6 {
                InputDirection::SnapRight
            } else {
                InputDirection::Neutral
            },
        }
    }
}

impl Frame {
    pub fn new(time: u128, frame: RecorderFrame) -> (r: Self)
        ensures
            r == (Frame { time, input: unpack(frame.input) }),
    {
        Frame { time, input: frame.input() }
    }
}

/// Frames, their times and the last frame's time after the gap up to `now`
/// has been bridged: an idle keep-alive frame every `MAX_DELTA` milliseconds
/// while more than that separates the last frame from `now`.
pub open spec fn bridged(frames: Seq<RecorderFrame>, stamps: Seq<int>, last: int, now: int) -> (
    Seq<RecorderFrame>,
    Seq<int>,
    int,
)
    decreases now - last,
{
    if now - last > MAX_DELTA {
        bridged(
            frames.push(RecorderFrame { time: MAX_DELTA, input: 0 }),
            stamps.push(last + MAX_DELTA),
            last + MAX_DELTA,
            now,
        )
    } else {
        (frames, stamps, last)
    }
}

/// `after` is `before` having recorded `input` at `now`. A gap longer than
/// `MAX_DELTA` is first bridged by idle keep-alive frames; then a frame is
/// added when `MAX_DELTA` milliseconds have passed since the last one or when
/// the input asks for something.
pub open spec fn recorded(before: Recorder, after: Recorder, input: Input, now: u128) -> bool {
    let (frames, stamps, last) = bridged(
        before.frames_spec(),
        before.stamps_spec(),
        before.last_frame_spec() as int,
        now as int,
    );
    &&& after.start_spec() == before.start_spec()
    &&& after.seed_spec() == before.seed_spec()
    &&& after.kind_spec() == before.kind_spec()
    &&& if now - last == MAX_DELTA || input != idle_input() {
        &&& after.frames_spec() == frames.push(
            RecorderFrame { time: (now - last) as u16, input: pack(input) },
        )
        &&& after.stamps_spec() == stamps.push(now as int)
        &&& after.last_frame_spec() == now
    } else {
        &&& after.frames_spec() == frames
        &&& after.stamps_spec() == stamps
        &&& after.last_frame_spec() == last
    }
}

/// Records a session's inputs as frames, one per input that asks for
/// something, and one at least every `MAX_DELTA` milliseconds.
pub struct Recorder {
    seed: u64,
    kind: GameType,
    frames: Vec<RecorderFrame>,
    last_frame: u128,
    start: Ghost<int>,
    stamps: Ghost<Seq<int>>,
}

impl Recorder {
    pub closed spec fn frames_spec(&self) -> Seq<RecorderFrame> {
        self.frames@
    }

    /// When the last frame was recorded.
    pub closed spec fn last_frame_spec(&self) -> u128 {
        self.last_frame
    }

    /// When the recorder was made.
    pub closed spec fn start_spec(&self) -> int {
        self.start@
    }

    /// When each frame was recorded.
    pub closed spec fn stamps_spec(&self) -> Seq<int> {
        self.stamps@
    }

    pub closed spec fn seed_spec(&self) -> u64 {
        self.seed
    }

    pub closed spec fn kind_spec(&self) -> GameType {
        self.kind
    }

    /// Each frame's time is the time since the one before, the first frame
    /// was recorded when the recorder was made, and the last one at
    /// `last_frame`.
    pub closed spec fn wf(&self) -> bool {
        &&& self.frames@.len() >= 1
        &&& self.stamps@.len() == self.frames@.len()
        &&& self.start@ >= 0
        &&& forall|k: int|
            0 <= k < self.frames@.len() ==> #[trigger] self.stamps@[k] == self.start@ + total_time(
                self.frames@.subrange(0, k + 1),
            )
        &&& forall|k: int|
            0 <= k < self.frames@.len() ==> self.start@ <= #[trigger] self.stamps@[k]
                <= self.last_frame
        &&& self.stamps@.last() == self.last_frame
    }

    /// A recorder for a session of `game` with the given seed, started at
    /// `now`.
    pub fn new(seed: u64, now: u128, game: &Game) -> (r: Self)
        ensures
            r.wf(),
            r.frames_spec() == seq![RecorderFrame { time: 0, input: 0 }],
            r.last_frame_spec() == now,
            r.start_spec() == now,
            r.seed_spec() == seed,
            r.kind_spec() == game.kind_spec(),
    {
        let first = RecorderFrame::new(0, Input::idle());
        let mut frames: Vec<RecorderFrame> = Vec::new();
        frames.push(first);
        let ghost stamps = seq![now as int];
        let r = Recorder {
            seed,
            kind: game.kind(),
            frames,
            last_frame: now,
            start: Ghost(now as int),
            stamps: Ghost(stamps),
        };
        proof {
            reveal_with_fuel(total_time, 2);
            assert(r.frames@.subrange(0, 1) =~= seq![first]);
            assert(seq![first].drop_last() =~= Seq::<RecorderFrame>::empty());
        }
        r
    }

    /// Adds a frame recorded at `now`, `time` after the last one.
    fn push_frame(&mut self, frame: RecorderFrame, now: u128)
        requires
            old(self).wf(),
            now == old(self).last_frame_spec() + frame.time,
        ensures
            final(self).wf(),
            final(self).frames_spec() == old(self).frames_spec().push(frame),
            final(self).stamps_spec() == old(self).stamps_spec().push(now as int),
            final(self).last_frame_spec() == now,
            final(self).start_spec() == old(self).start_spec(),
            final(self).seed_spec() == old(self).seed_spec(),
            final(self).kind_spec() == old(self).kind_spec(),
    {
        let ghost before = self.frames@;
        self.frames.push(frame);
        self.last_frame = now;
        proof {
            self.stamps@ = self.stamps@.push(now as int);
            let n = before.len() as int;
            assert(self.frames@.subrange(0, n + 1).drop_last() =~= before.subrange(0, n));
            assert(self.frames@.subrange(0, n + 1) =~= self.frames@);
            assert(before.subrange(0, n) =~= before);
            assert forall|k: int| 0 <= k < n implies #[trigger] self.frames@.subrange(0, k + 1)
                =~= before.subrange(0, k + 1) by {}
            assert(old(self).stamps@[n - 1] == old(self).last_frame);
            assert(self.stamps@[n] == self.start@ + total_time(self.frames@.subrange(0, n + 1)));
            assert forall|k: int|
                0 <= k < self.frames@.len() implies #[trigger] self.stamps@[k] == self.start@
                + total_time(self.frames@.subrange(0, k + 1)) by {
                if k < n {
                    assert(self.frames@.subrange(0, k + 1) =~= before.subrange(0, k + 1));
                }
            }
        }
    }

    /// Records the input of the tick at `now` (see `recorded`).
    pub fn record(&mut self, input: Input, now: u128)
        requires
            old(self).wf(),
            old(self).last_frame_spec() <= now,
        ensures
            final(self).wf(),
            recorded(*old(self), *final(self), input, now),
            final(self).last_frame_spec() <= now,
    {
        while now - self.last_frame > MAX_DELTA as u128
            invariant
                self.wf(),
                self.last_frame <= now,
                bridged(old(self).frames@, old(self).stamps@, old(self).last_frame as int, now as int)
                    == bridged(self.frames@, self.stamps@, self.last_frame as int, now as int),
                self.start@ == old(self).start@,
                self.seed == old(self).seed,
                self.kind == old(self).kind,
            decreases now - self.last_frame,
        {
            let t = self.last_frame + MAX_DELTA as u128;
            self.push_frame(RecorderFrame { time: MAX_DELTA, input: 0 }, t);
        }
        let elapsed = now - self.last_frame;
        if elapsed == MAX_DELTA as u128 || !input.is_idle() {
            self.push_frame(RecorderFrame::new(elapsed as u16, input), now);
        }
    }

    pub fn last_frame(&self) -> (r: u128)
        ensures
            r == self.last_frame_spec(),
    {
        self.last_frame
    }

    pub fn frames(&self) -> (r: &Vec<RecorderFrame>)
        ensures
            r@ == self.frames_spec(),
    {
        &self.frames
    }

    /// The whole recording as bytes (see `encoded`).
    pub fn raw(self, username: &str, score: Score, duration: u64, end_time: i64) -> (r: Vec<u8>)
        ensures
            r@ == encoded(
                username.spec_bytes(),
                self.kind_spec(),
                score,
                duration,
                self.seed_spec(),
                end_time,
                self.frames_spec(),
            ),
    {
        let name = username.as_bytes();
        let mut buffer: Vec<u8> = Vec::new();
        let mut i: usize = 0;
        while i < name.len()
            invariant
                i <= name@.len(),
                name@ == username.spec_bytes(),
                buffer@ == name@.subrange(0, i as int),
            decreases name@.len() - i,
        {
            buffer.push(name[i]);
            assert(buffer@ =~= name@.subrange(0, i + 1));
            i += 1;
        }
        assert(buffer@ =~= name@);
        buffer.push(10u8);
        buffer.push(VERSION);
        buffer.push(self.kind.mode.code());
        push_be_bytes(&mut buffer, self.kind.count);
        push_be_bytes(&mut buffer, score.score);
        push_be_bytes(&mut buffer, score.lines);
        push_be_bytes(&mut buffer, duration);
        push_be_bytes(&mut buffer, self.seed);
        push_be_bytes(&mut buffer, end_time as u64);
        let ghost head = buffer@;
        let mut k: usize = 0;
        while k < self.frames.len()
            invariant
                k <= self.frames@.len(),
                buffer@ == head + frame_bytes(self.frames@.subrange(0, k as int)),
            decreases self.frames@.len() - k,
        {
            let frame = self.frames[k];
            buffer.push((frame.time / 256) as u8);
            buffer.push((frame.time % 256) as u8);
            buffer.push(frame.input);
            assert(frame_bytes(self.frames@.subrange(0, k + 1)) =~= frame_bytes(
                self.frames@.subrange(0, k as int),
            ) + seq![(frame.time / 256) as u8, (frame.time % 256) as u8, frame.input]);
            k += 1;
        }
        assert(self.frames@.subrange(0, self.frames@.len() as int) =~= self.frames@);
        assert(buffer@ =~= encoded(
            username.spec_bytes(),
            self.kind,
            score,
            duration,
            self.seed,
            end_time,
            self.frames@,
        ));
        buffer
    }
}

/// Every frame that a recorder holds replays at the time it was recorded,
/// counted from the moment the recorder was made; in particular two inputs
/// recorded `MAX_DELTA` milliseconds apart replay `MAX_DELTA` apart.
pub proof fn lemma_frames_replay_at_their_times(rec: Recorder, k: int)
    requires
        rec.wf(),
        0 <= k < rec.frames_spec().len(),
    ensures
        replayed(rec.frames_spec())[k].time == rec.stamps_spec()[k] - rec.start_spec(),
{
    assert(rec.start_spec() <= rec.stamps_spec()[k] <= rec.last_frame_spec());
}

/// A recorded session read back: its metadata and the frames not yet replayed.
pub struct Replay {
    username: String,
    version: u8,
    score: Score,
    duration: u64,
    time_stamp: i64,
    seed: u64,
    kind: GameType,
    frames: Vec<Frame>,
    cursor: usize,
}

proof fn lemma_first_newline_unique(b: Seq<u8>, i: int, j: int)
    requires
        first_newline(b, i),
        first_newline(b, j),
    ensures
        i == j,
{
    if i < j {
        assert(b[i] != 10);
    } else if j < i {
        assert(b[j] != 10);
    }
}

impl Replay {
    /// What the replay holds, with the frames not yet taken by `next`.
    pub closed spec fn fields(&self) -> ReplayFields {
        ReplayFields {
            username: self.username@,
            version: self.version,
            kind: self.kind,
            score: self.score,
            duration: self.duration,
            time_stamp: self.time_stamp,
            seed: self.seed,
            frames: self.frames@.subrange(self.cursor as int, self.frames@.len() as int),
        }
    }

    pub closed spec fn wf(&self) -> bool {
        self.cursor <= self.frames@.len()
    }

    /// Reads a recording (see `decoded`).
    pub fn new(buffer: Vec<u8>) -> (r: Result<Self, ReplayError>)
        ensures
            match r {
                Ok(replay) => replay.wf() && decoded(buffer@) == Ok::<ReplayFields, ReplayError>(
                    replay.fields(),
                ),
                Err(e) => decoded(buffer@) == Err::<ReplayFields, ReplayError>(e),
            },
    {
        let len = buffer.len();
        let mut nl: usize = 0;
        while nl < len && buffer[nl] != 10
            invariant
                nl <= len,
                len == buffer@.len(),
                forall|j: int| 0 <= j < nl ==> buffer@[j] != 10,
            decreases len - nl,
        {
            nl += 1;
        }
        if nl == len {
            assert(!exists|i: int| first_newline(buffer@, i));
            return Err(ReplayError::UsernameNotFound);
        }
        proof {
            assert(first_newline(buffer@, nl as int));
            let c = choose|i: int| first_newline(buffer@, i);
            lemma_first_newline_unique(buffer@, c, nl as int);
        }
        let mut name_bytes: Vec<u8> = Vec::new();
        let mut i: usize = 0;
        while i < nl
            invariant
                i <= nl < len,
                len == buffer@.len(),
                name_bytes@ == buffer@.subrange(0, i as int),
            decreases nl - i,
        {
            name_bytes.push(buffer[i]);
            assert(name_bytes@ =~= buffer@.subrange(0, i + 1));
            i += 1;
        }
        let name = match utf8_string(name_bytes) {
            Some(s) => s,
            None => {
                return Err(ReplayError::UsernameNotFound);
            },
        };
        let username = trim_name(&name);
        let h = nl + 1;
        if len - h < 50 {
            return Err(ReplayError::BufferTooShort);
        }
        let version = buffer[h];
        if version != VERSION {
            return Err(ReplayError::UnsupportedVersion);
        }
        let mode = match GameMode::new(buffer[h + 1]) {
            Ok(m) => m,
            Err(_) => {
                return Err(ReplayError::UnknownMode);
            },
        };
        let count = read_be_bytes(&buffer, h + 2);
        let score = read_be_bytes(&buffer, h + 10);
        let lines = read_be_bytes(&buffer, h + 18);
        let duration = read_be_bytes(&buffer, h + 26);
        let seed = read_be_bytes(&buffer, h + 34);
        let time_stamp = read_be_bytes(&buffer, h + 42) as i64;
        let start = h + 50;
        let ghost body = buffer@.subrange(start as int, len as int);
        let ghost deltas = frames_of_bytes(body);
        let n = (len - start) / 3;
        let mut frames: Vec<Frame> = Vec::new();
        let mut time: u128 = 0;
        let mut k: usize = 0;
        while k < n
            invariant
                k <= n,
                n == (len - start) / 3,
                start <= len,
                len == buffer@.len(),
                body == buffer@.subrange(start as int, len as int),
                deltas == frames_of_bytes(body),
                deltas.len() == n,
                time == total_time(deltas.subrange(0, k as int)),
                time <= 65535 * k,
                frames@ == replayed(deltas).subrange(0, k as int),
            decreases n - k,
        {
            let at = start + 3 * k;
            let frame = RecorderFrame::from_bytes(buffer[at], buffer[at + 1], buffer[at + 2]);
            assert(frame == deltas[k as int]);
            time = time + frame.time as u128;
            proof {
                assert(deltas.subrange(0, k + 1).drop_last() =~= deltas.subrange(0, k as int));
            }
            frames.push(Frame::new(time, frame));
            assert(frames@ =~= replayed(deltas).subrange(0, k + 1));
            k += 1;
        }
        assert(replayed(deltas).subrange(0, n as int) =~= replayed(deltas));
        let r = Replay {
            username,
            version,
            score: Score { score, lines },
            duration,
            time_stamp,
            seed,
            kind: GameType { mode, count },
            frames,
            cursor: 0,
        };
        assert(r.frames@.subrange(0, r.frames@.len() as int) =~= r.frames@);
        Ok(r)
    }

    /// Takes the next frame, if one is left.
    pub fn next(&mut self) -> (r: Option<Frame>)
        requires
            old(self).wf(),
        ensures
            final(self).wf(),
            old(self).fields().frames.len() == 0 ==> r is None && final(self).fields()
                == old(self).fields(),
            old(self).fields().frames.len() > 0 ==> r == Some(old(self).fields().frames[0])
                && final(self).fields() == (ReplayFields {
                frames: old(self).fields().frames.drop_first(),
                ..old(self).fields()
            }),
    {
        if self.cursor < self.frames.len() {
            let f = self.frames[self.cursor];
            self.cursor = self.cursor + 1;
            assert(self.fields().frames =~= old(self).fields().frames.drop_first());
            Some(f)
        } else {
            None
        }
    }

    /// The input to apply at the tick at `now`: the next frame's input once
    /// its time has come, which uses up that frame; otherwise the idle input.
    pub fn input_for(&mut self, now: u128) -> (r: Input)
        requires
            old(self).wf(),
        ensures
            final(self).wf(),
            if old(self).fields().frames.len() > 0 && old(self).fields().frames[0].time <= now {
                &&& r == old(self).fields().frames[0].input
                &&& final(self).fields() == (ReplayFields {
                    frames: old(self).fields().frames.drop_first(),
                    ..old(self).fields()
                })
            } else {
                r == idle_input() && final(self).fields() == old(self).fields()
            },
    {
        if self.cursor < self.frames.len() && self.frames[self.cursor].time <= now {
            let f = self.frames[self.cursor];
            self.cursor = self.cursor + 1;
            assert(self.fields().frames =~= old(self).fields().frames.drop_first());
            f.input
        } else {
            Input::idle()
        }
    }

    pub fn seed(&self) -> (r: u64)
        ensures
            r == self.fields().seed,
    {
        self.seed
    }

    pub fn score(&self) -> (r: Score)
        ensures
            r == self.fields().score,
    {
        self.score
    }

    pub fn username(&self) -> (r: &String)
        ensures
            r@ == self.fields().username,
    {
        &self.username
    }

    pub fn version(&self) -> (r: u8)
        ensures
            r == self.fields().version,
    {
        self.version
    }

    pub fn duration(&self) -> (r: u64)
        ensures
            r == self.fields().duration,
    {
        self.duration
    }

    pub fn time_stamp(&self) -> (r: i64)
        ensures
            r == self.fields().time_stamp,
    {
        self.time_stamp
    }

    pub fn kind(&self) -> (r: GameType)
        ensures
            r == self.fields().kind,
    {
        self.kind
    }
}

/// The prefixes of an encoding, field by field.
pub open spec fn encoded_prefix(
    name: Seq<u8>,
    kind: GameType,
    score: Score,
    duration: u64,
    seed: u64,
    end_time: i64,
    k: int,
) -> Seq<u8>
    decreases k,
{
    if k <= 0 {
        name + seq![10u8, VERSION, mode_code(kind.mode)]
    } else {
        let n = if k == 1 {
            kind.count
        } else if k == 2 {
            score.score
        } else if k == 3 {
            score.lines
        } else if k == 4 {
            duration
        } else if k == 5 {
            seed
        } else {
            end_time as u64
        };
        encoded_prefix(name, kind, score, duration, seed, end_time, k - 1) + be_bytes(n)
    }
}

proof fn lemma_encoded_prefix_len(
    name: Seq<u8>,
    kind: GameType,
    score: Score,
    duration: u64,
    seed: u64,
    end_time: i64,
    k: int,
)
    requires
        0 <= k <= 6,
    ensures
        encoded_prefix(name, kind, score, duration, seed, end_time, k).len() == name.len() + 3 + 8 * k,
    decreases k,
{
    if k > 0 {
        lemma_encoded_prefix_len(name, kind, score, duration, seed, end_time, k - 1);
    }
}

/// Each prefix is a prefix of every later one.
proof fn lemma_encoded_prefix_grows(
    name: Seq<u8>,
    kind: GameType,
    score: Score,
    duration: u64,
    seed: u64,
    end_time: i64,
    j: int,
    k: int,
)
    requires
        0 <= j <= k <= 6,
    ensures
        forall|i: int|
            0 <= i < encoded_prefix(name, kind, score, duration, seed, end_time, j).len() ==> (
            #[trigger] encoded_prefix(name, kind, score, duration, seed, end_time, k)[i])
                == encoded_prefix(name, kind, score, duration, seed, end_time, j)[i],
    decreases k,
{
    if j < k {
        lemma_encoded_prefix_grows(name, kind, score, duration, seed, end_time, j, k - 1);
        lemma_encoded_prefix_len(name, kind, score, duration, seed, end_time, j);
        lemma_encoded_prefix_len(name, kind, score, duration, seed, end_time, k - 1);
    }
}

proof fn lemma_encoded_number(
    name: Seq<u8>,
    kind: GameType,
    score: Score,
    duration: u64,
    seed: u64,
    end_time: i64,
    k: int,
)
    requires
        1 <= k <= 6,
    ensures
        from_be_bytes(
            encoded(name, kind, score, duration, seed, end_time, Seq::empty()),
            name.len() + 3 + 8 * (k - 1),
        ) == if k == 1 {
            kind.count
        } else if k == 2 {
            score.score
        } else if k == 3 {
            score.lines
        } else if k == 4 {
            duration
        } else if k == 5 {
            seed
        } else {
            end_time as u64
        },
{
    let pre = encoded_prefix(name, kind, score, duration, seed, end_time, k - 1);
    let at = encoded_prefix(name, kind, score, duration, seed, end_time, k);
    let all = encoded_prefix(name, kind, score, duration, seed, end_time, 6);
    lemma_encoded_prefix_len(name, kind, score, duration, seed, end_time, k - 1);
    lemma_encoded_prefix_len(name, kind, score, duration, seed, end_time, k);
    lemma_encoded_prefix_len(name, kind, score, duration, seed, end_time, 6);
    lemma_encoded_prefix_grows(name, kind, score, duration, seed, end_time, k, 6);
    reveal_with_fuel(encoded_prefix, 7);
    assert(encoded(name, kind, score, duration, seed, end_time, Seq::empty()) =~= all);
    let n = if k == 1 {
        kind.count
    } else if k == 2 {
        score.score
    } else if k == 3 {
        score.lines
    } else if k == 4 {
        duration
    } else if k == 5 {
        seed
    } else {
        end_time as u64
    };
    lemma_be_in(pre, n);
    lemma_prefix_reads(all, at, pre.len() as int);
}

proof fn lemma_round_trip_bytes(
    name: Seq<u8>,
    kind: GameType,
    score: Score,
    duration: u64,
    seed: u64,
    end_time: i64,
    frames: Seq<RecorderFrame>,
)
    requires
        valid_utf8(name),
        !name.contains(10u8),
    ensures
        decoded(encoded(name, kind, score, duration, seed, end_time, frames)) == Ok::<
            ReplayFields,
            ReplayError,
        >(
            ReplayFields {
                username: trimmed(decode_utf8(name)),
                version: VERSION,
                kind,
                score,
                duration,
                time_stamp: end_time,
                seed,
                frames: replayed(frames),
            },
        ),
{
    let head = encoded(name, kind, score, duration, seed, end_time, Seq::empty());
    let b = encoded(name, kind, score, duration, seed, end_time, frames);
    assert(frame_bytes(Seq::<RecorderFrame>::empty()) =~= Seq::<u8>::empty());
    assert(b =~= head + frame_bytes(frames));
    let nl = name.len() as int;
    let h = nl + 1;
    assert(head.len() == h + 50);
    assert forall|k: int| 1 <= k <= 6 implies #[trigger] from_be_bytes(b, h + 2 + 8 * (k - 1))
        == from_be_bytes(head, h + 2 + 8 * (k - 1)) by {
        lemma_prefix_reads(b, head, h + 2 + 8 * (k - 1));
    }
    lemma_encoded_number(name, kind, score, duration, seed, end_time, 1);
    lemma_encoded_number(name, kind, score, duration, seed, end_time, 2);
    lemma_encoded_number(name, kind, score, duration, seed, end_time, 3);
    lemma_encoded_number(name, kind, score, duration, seed, end_time, 4);
    lemma_encoded_number(name, kind, score, duration, seed, end_time, 5);
    lemma_encoded_number(name, kind, score, duration, seed, end_time, 6);
    lemma_signed_round_trip(end_time);
    assert(b[nl] == 10);
    assert forall|j: int| 0 <= j < nl implies b[j] != 10 by {
        assert(b[j] == name[j]);
        if b[j] == 10 {
            assert(name.contains(10u8));
        }
    }
    assert(first_newline(b, nl));
    let c = choose|i: int| first_newline(b, i);
    lemma_first_newline_unique(b, c, nl);
    assert(b.subrange(0, nl) =~= name);
    assert(b[h] == VERSION && b[h + 1] == mode_code(kind.mode));
    let body = b.subrange(h + 50, b.len() as int);
    assert(body =~= frame_bytes(frames));
    assert(frames_of_bytes(body) =~= frames);
}

proof fn lemma_scalar_has_no_newline(v: u32)
    requires
        vstd::utf8::is_scalar(v),
        v != 10,
    ensures
        !vstd::utf8::encode_scalar(v).contains(10u8),
{
    assert(v <= 0x7F && v != 10 ==> ((v & 0x7F) as u8) != 10u8) by (bit_vector);
    assert((0xC0u8 | ((v >> 6u32) & 0x1F) as u8) != 10u8) by (bit_vector);
    assert((0xE0u8 | ((v >> 12u32) & 0x0F) as u8) != 10u8) by (bit_vector);
    assert((0xF0u8 | ((v >> 18u32) & 0x7) as u8) != 10u8) by (bit_vector);
    assert((0x80u8 | (v & 0x3F) as u8) != 10u8) by (bit_vector);
    assert((0x80u8 | ((v >> 6u32) & 0x3F) as u8) != 10u8) by (bit_vector);
    assert((0x80u8 | ((v >> 12u32) & 0x3F) as u8) != 10u8) by (bit_vector);
}

/// A name without a newline character encodes to bytes without a newline.
proof fn lemma_encoding_has_no_newline(name: Seq<char>)
    requires
        !name.contains('\n'),
    ensures
        !encode_utf8(name).contains(10u8),
    decreases name.len(),
{
    if name.len() > 0 {
        let c = name[0];
        let rest = name.drop_first();
        assert(!rest.contains('\n')) by {
            if rest.contains('\n') {
                let k = choose|k: int| 0 <= k < rest.len() && rest[k] == '\n';
                assert(name[k + 1] == '\n');
            }
        }
        lemma_encoding_has_no_newline(rest);
        vstd::utf8::char_is_scalar(c);
        if c as u32 == 10 {
            vstd::utf8::char_u32_cast(c, 10u32);
            assert(c == '\n');
            assert(name.contains('\n'));
        }
        lemma_scalar_has_no_newline(c as u32);
        let head = vstd::utf8::encode_scalar(c as u32);
        let b = encode_utf8(name);
        assert(b == head + encode_utf8(rest));
        if b.contains(10u8) {
            let k = choose|k: int| 0 <= k < b.len() && b[k] == 10u8;
            if k < head.len() {
                assert(head.contains(10u8));
            } else {
                assert(encode_utf8(rest)[k - head.len()] == 10u8);
                assert(encode_utf8(rest).contains(10u8));
            }
        }
    }
}

/// Reading back what was written gives the same mode and target, score,
/// duration, seed, end time and frames, each frame at its time from the
/// start; the name comes back trimmed. The name must hold no newline.
pub proof fn lemma_round_trip(
    name: Seq<char>,
    kind: GameType,
    score: Score,
    duration: u64,
    seed: u64,
    end_time: i64,
    frames: Seq<RecorderFrame>,
)
    requires
        !name.contains('\n'),
    ensures
        decoded(encoded(encode_utf8(name), kind, score, duration, seed, end_time, frames)) == Ok::<
            ReplayFields,
            ReplayError,
        >(
            ReplayFields {
                username: trimmed(name),
                version: VERSION,
                kind,
                score,
                duration,
                time_stamp: end_time,
                seed,
                frames: replayed(frames),
            },
        ),
{
    lemma_encoding_has_no_newline(name);
    vstd::utf8::encode_utf8_valid_utf8(name);
    vstd::utf8::encode_utf8_decode_utf8(name);
    lemma_round_trip_bytes(encode_utf8(name), kind, score, duration, seed, end_time, frames);
}

} // verus!
