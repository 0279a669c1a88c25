//! Cutting the shell's output into units: stretches of plain output and
//! whole sequences.
//!
//! A sequence begins with an escape. What follows the escape says what kind
//! it is and where it ends. A sequence that the output ends in the middle of
//! is held back until the rest of it comes, and so is the beginning of a
//! character of more than one byte. Every unit begins with a cancel, so that
//! it stands by itself.

use vstd::prelude::*;

verus! {

/// The byte that ends whatever a sequence is in the middle of.
pub const CANCEL: u8 = 0x18;

/// The byte that stands for a character that could not be shown, and ends
/// a sequence as the cancel does.
pub const SUBSTITUTE: u8 = 0x1A;

/// The byte that begins an escape sequence.
pub const ESCAPE: u8 = 0x1B;

/// The byte that ends a string of the operating system command.
pub const BELL: u8 = 0x07;

/// The byte that ends a string which is no operating system command.
pub const STRING_END: u8 = 0x9C;

/// The byte after the escape that begins an operating system command, and
/// the one that begins a device control string.
pub const COMMAND: u8 = 0x5D;

pub const DEVICE: u8 = 0x50;

/// How many bytes of a sequence are kept. Of a longer string the rest is
/// left out; any other sequence that is longer is dropped when it ends.
pub const HELD_LIMIT: usize = 4096;

/// Whether the byte after an escape begins a string.
pub open spec fn begins_string(b: u8) -> bool {
    b == 0x5D || b == 0x50 || b == 0x58 || b == 0x5E || b == 0x5F
}

/// Whether the byte after an escape begins a string.
pub fn is_string_start(b: u8) -> (string: bool)
    ensures
        string == begins_string(b),
{
    b == 0x5D || b == 0x50 || b == 0x58 || b == 0x5E || b == 0x5F
}

/// Whether what is held back is a string.
pub open spec fn holds_string(held: Seq<u8>) -> bool {
    held.len() >= 2 && begins_string(held[1])
}

/// How many bytes the character that begins with `lead` has after its
/// first: none for a byte that begins no character of more than one byte.
pub open spec fn to_come(lead: u8) -> int {
    if 0xC2 <= lead <= 0xDF {
        1
    } else if 0xE0 <= lead <= 0xEF {
        2
    } else if 0xF0 <= lead <= 0xF4 {
        3
    } else {
        0
    }
}

/// How many bytes the character that begins with `lead` has after its
/// first.
pub fn bytes_to_come(lead: u8) -> (more: usize)
    ensures
        more == to_come(lead),
{
    if 0xC2 <= lead && lead <= 0xDF {
        1
    } else if 0xE0 <= lead && lead <= 0xEF {
        2
    } else if 0xF0 <= lead && lead <= 0xF4 {
        3
    } else {
        0
    }
}

/// Whether the character that begins `back` bytes before the end of `run`
/// is not whole yet. The first byte of a run is its cancel and begins no
/// character.
pub open spec fn begins_unfinished(run: Seq<u8>, back: int) -> bool {
    1 <= back <= 3 && back < run.len() && to_come(run[run.len() - back]) >= back
}

/// Where the whole characters of `run` end: where the character begins
/// that the run ends in the middle of, or at the end of the run.
pub open spec fn whole_end(run: Seq<u8>) -> int {
    if begins_unfinished(run, 1) {
        run.len() - 1
    } else if begins_unfinished(run, 2) {
        run.len() - 2
    } else if begins_unfinished(run, 3) {
        run.len() - 3
    } else {
        run.len() as int
    }
}

/// Finds where the whole characters of `run` end.
pub fn whole_characters(run: &Vec<u8>) -> (end: usize)
    ensures
        end == whole_end(run@),
        end <= run@.len(),
        run@.len() >= 1 ==> end >= 1,
{
    let n = run.len();
    if 1 < n && bytes_to_come(run[n - 1]) >= 1 {
        n - 1
    } else if 2 < n && bytes_to_come(run[n - 2]) >= 2 {
        n - 2
    } else if 3 < n && bytes_to_come(run[n - 3]) >= 3 {
        n - 3
    } else {
        n
    }
}

/// How far a device control string has come: 0 at its beginning, 1 among
/// its numbers, 2 among its intermediate bytes, 3 past its header, where
/// its content stands or it is left out as a whole.
pub open spec fn header_step(state: int, b: u8) -> int {
    if state == 3 || 0x40 <= b <= 0x7E || b == 0x3A {
        3
    } else if 0x20 <= b <= 0x2F {
        2
    } else if 0x30 <= b <= 0x3F {
        if state == 0 {
            1
        } else if state == 1 && b <= 0x3B {
            1
        } else {
            3
        }
    } else {
        state
    }
}

/// How far the device control string `held` has come after its first `n`
/// bytes, of which the first two are the escape and the `P`.
pub open spec fn header_state(held: Seq<u8>, n: int) -> int
    decreases n,
{
    if n <= 2 {
        0
    } else {
        header_step(header_state(held, n - 1), held[n - 1])
    }
}

/// Whether a device control string has come past its header, after which
/// the string end ends it.
pub open spec fn past_header(held: Seq<u8>) -> bool {
    header_state(held, held.len() as int) == 3
}

/// Decides whether a device control string has come past its header.
pub fn is_past_header(held: &Vec<u8>) -> (past: bool)
    ensures
        past == past_header(held@),
{
    let mut state: u8 = 0;
    let mut i: usize = 2;
    if held.len() <= 2 {
        return false;
    }
    while i < held.len()
        invariant
            2 <= i <= held@.len(),
            state as int == header_state(held@, i as int),
            state <= 3,
        decreases held@.len() - i,
    {
        let b = held[i];
        state = if state == 3 || (0x40 <= b && b <= 0x7E) || b == 0x3A {
            3
        } else if 0x20 <= b && b <= 0x2F {
            2
        } else if 0x30 <= b && b <= 0x3F {
            if state == 0 {
                1
            } else if state == 1 && b <= 0x3B {
                1
            } else {
                3
            }
        } else {
            state
        };
        i += 1;
    }
    state == 3
}

/// Whether the byte `b` ends the string that is held back: the cancel and
/// the substitute end every string, the bell ends an operating system
/// command, and the string end ends every other string, a device control
/// string once it has come past its header.
pub open spec fn ends_string(held: Seq<u8>, b: u8) -> bool {
    ||| b == CANCEL
    ||| b == SUBSTITUTE
    ||| held[1] == COMMAND && b == BELL
    ||| held[1] != COMMAND && b == STRING_END && (held[1] != DEVICE || past_header(held))
}

/// Where the cutting stands: the sequence or the beginning of a character
/// that is held back, the plain output that has gathered, and the units that
/// were cut off.
pub struct Cutting {
    pub held: Seq<u8>,
    pub run: Seq<u8>,
    pub units: Seq<Seq<u8>>,
}

impl Cutting {
    /// The cutting after the plain output that has gathered was cut off as
    /// a unit, if there is any, and a new run begun.
    pub open spec fn flushed(self) -> Cutting {
        Cutting {
            run: seq![CANCEL],
            units: if self.run.len() > 1 {
                self.units.push(self.run)
            } else {
                self.units
            },
            ..self
        }
    }

    /// The cutting after the sequence that is held back was cut off as a
    /// unit, with a cancel before it.
    pub open spec fn dispatched(self) -> Cutting {
        Cutting { held: Seq::empty(), units: self.units.push(seq![CANCEL] + self.held), ..self }
    }

    /// The cutting after the held sequence was dropped.
    pub open spec fn dropped(self) -> Cutting {
        Cutting { held: Seq::empty(), ..self }
    }

    /// The cutting after an escape has ended the held sequence: a string
    /// is cut off as far as it was kept, anything else is dropped.
    pub open spec fn given_up(self) -> Cutting {
        if holds_string(self.held) {
            self.dispatched()
        } else {
            self.dropped()
        }
    }

    /// The cutting with one more byte in the held sequence, if there is
    /// room for it; a byte for which there is none is left out.
    pub open spec fn taken(self, b: u8) -> Cutting {
        if self.held.len() < HELD_LIMIT {
            Cutting { held: self.held.push(b), ..self }
        } else {
            self
        }
    }

    /// The cutting after the byte `b` has ended a sequence that is no
    /// string: the sequence is cut off with the byte at its end, unless it
    /// has become too long, and then it is dropped.
    pub open spec fn finished(self, b: u8) -> Cutting {
        if self.held.len() < HELD_LIMIT {
            (Cutting { held: self.held.push(b), ..self }).dispatched()
        } else {
            self.dropped()
        }
    }

    /// The cutting after the byte `b` has ended the held string: the string
    /// is cut off as far as it was kept, with the byte at its end.
    pub open spec fn closed(self, b: u8) -> Cutting {
        (Cutting { held: self.held.push(b), ..self }).dispatched()
    }

    /// The cutting after one more byte of output.
    ///
    /// Outside a sequence an escape ends the plain output and begins a
    /// sequence, and every other byte is plain output. Inside a sequence an
    /// escape begins a new one. A string takes every other byte until one
    /// ends it. In the other sequences a cancel or a substitute ends the
    /// sequence without a unit, a control byte is plain output at once,
    /// and a byte from 0x7F on is left out. After the escape an
    /// intermediate byte (0x20 to 0x2F), the bracket and the bytes that
    /// begin a string go on, and any other byte ends the sequence. A
    /// control sequence ends with a byte from 0x40 on, and an escape
    /// sequence with intermediate bytes ends with a byte from 0x30 on.
    pub open spec fn step(self, b: u8) -> Cutting {
        if self.held.len() == 0 {
            if b == ESCAPE {
                Cutting { held: seq![ESCAPE], ..self.flushed() }
            } else {
                Cutting { run: self.run.push(b), ..self }
            }
        } else if b == ESCAPE {
            Cutting { held: seq![ESCAPE], ..self.given_up() }
        } else if holds_string(self.held) {
            if ends_string(self.held, b) {
                self.closed(b)
            } else {
                self.taken(b)
            }
        } else if b == CANCEL || b == SUBSTITUTE {
            self.dropped()
        } else if b < 0x20 {
            (Cutting { run: self.run.push(b), ..self }).flushed()
        } else if b >= 0x7F {
            self
        } else if self.held.len() == 1 {
            if !(0x20 <= b <= 0x2F) && b != 0x5B && !begins_string(b) {
                self.finished(b)
            } else {
                self.taken(b)
            }
        } else if self.held[1] == 0x5B {
            if b >= 0x40 {
                self.finished(b)
            } else {
                self.taken(b)
            }
        } else {
            if b >= 0x30 {
                self.finished(b)
            } else {
                self.taken(b)
            }
        }
    }

    /// The cutting after the first `n` bytes of `bytes`.
    pub open spec fn steps(self, bytes: Seq<u8>, n: int) -> Cutting
        decreases n,
    {
        if n <= 0 {
            self
        } else {
            self.steps(bytes, n - 1).step(bytes[n - 1])
        }
    }

    /// The cutting as it begins with what was held back: the beginning of
    /// a character goes on as plain output, a sequence stays held.
    pub open spec fn begun(held: Seq<u8>) -> Cutting {
        if held.len() > 0 && held[0] != ESCAPE {
            Cutting { held: Seq::empty(), run: seq![CANCEL] + held, units: Seq::empty() }
        } else {
            Cutting { held, run: seq![CANCEL], units: Seq::empty() }
        }
    }

    /// The cutting at the end of the output: the beginning of a character
    /// that is not whole yet is held back, and the plain output before it
    /// is cut off.
    pub open spec fn ended(self) -> Cutting {
        if self.held.len() == 0 {
            let end = whole_end(self.run);
            (Cutting {
                held: self.run.subrange(end, self.run.len() as int),
                run: self.run.subrange(0, end),
                ..self
            }).flushed()
        } else {
            self.flushed()
        }
    }

    /// The cutting of `bytes` after `held` was held back.
    pub open spec fn of(held: Seq<u8>, bytes: Seq<u8>) -> Cutting {
        Cutting::begun(held).steps(bytes, bytes.len() as int).ended()
    }
}

/// What a list of units holds.
pub open spec fn unit_views(units: Seq<Vec<u8>>) -> Seq<Seq<u8>> {
    units.map_values(|unit: Vec<u8>| unit@)
}

/// Plain output passes whole: where nothing is held back, output without an
/// escape and without a byte from 0x80 on is cut off as one unit, the cancel
/// and then the output, and nothing of it is held back.
pub proof fn lemma_plain_output_passes(bytes: Seq<u8>)
    requires
        bytes.len() > 0,
        forall|i: int| 0 <= i < bytes.len() ==> bytes[i] != ESCAPE && bytes[i] < 0x80,
    ensures
        Cutting::of(Seq::empty(), bytes).units == seq![seq![CANCEL] + bytes],
        Cutting::of(Seq::empty(), bytes).held.len() == 0,
{
    let start = Cutting::begun(Seq::empty());
    lemma_plain_steps(bytes, bytes.len() as int);
    let all = start.steps(bytes, bytes.len() as int);
    assert(all.run =~= seq![CANCEL] + bytes);
    assert(to_come(all.run[all.run.len() - 1]) == 0);
    if all.run.len() > 2 {
        assert(to_come(all.run[all.run.len() - 2]) == 0);
    }
    if all.run.len() > 3 {
        assert(to_come(all.run[all.run.len() - 3]) == 0);
    }
    assert(whole_end(all.run) == all.run.len());
    assert(all.run.subrange(0, all.run.len() as int) =~= all.run);
    assert(all.run.subrange(all.run.len() as int, all.run.len() as int) =~= Seq::<u8>::empty());
    assert(Cutting::of(Seq::empty(), bytes).units =~= seq![seq![CANCEL] + bytes]);
}

/// Plain output gathers in the run.
proof fn lemma_plain_steps(bytes: Seq<u8>, n: int)
    requires
        0 <= n <= bytes.len(),
        forall|i: int| 0 <= i < bytes.len() ==> bytes[i] != ESCAPE && bytes[i] < 0x80,
    ensures
        Cutting::begun(Seq::empty()).steps(bytes, n) == (Cutting {
            held: Seq::empty(),
            run: seq![CANCEL] + bytes.subrange(0, n),
            units: Seq::empty(),
        }),
    decreases n,
{
    let start = Cutting::begun(Seq::empty());
    if n > 0 {
        lemma_plain_steps(bytes, n - 1);
        assert((seq![CANCEL] + bytes.subrange(0, n - 1)).push(bytes[n - 1]) =~= seq![CANCEL]
            + bytes.subrange(0, n));
    } else {
        assert(seq![CANCEL] + bytes.subrange(0, 0) =~= seq![CANCEL]);
        assert(start.held =~= Seq::<u8>::empty());
    }
}

/// Whether `s` is one whole control sequence: the escape, the bracket,
/// parameter and intermediate bytes, and a final byte, no longer than what
/// is kept.
pub open spec fn whole_control(s: Seq<u8>) -> bool {
    &&& 3 <= s.len() <= HELD_LIMIT
    &&& s[0] == ESCAPE
    &&& s[1] == 0x5B
    &&& forall|i: int| 2 <= i < s.len() - 1 ==> 0x20 <= #[trigger] s[i] <= 0x3F
    &&& 0x40 <= s[s.len() - 1] <= 0x7E
}

/// A control sequence passes whole, in one piece or in two: where the
/// output ends in the middle of it nothing is cut off and what has come is
/// held back, and when the rest has come the sequence is cut off as one
/// unit, the cancel and then the sequence, and nothing is held back.
pub proof fn lemma_control_sequence_passes(first: Seq<u8>, rest: Seq<u8>)
    requires
        whole_control(first + rest),
        rest.len() >= 1,
    ensures
        Cutting::of(Seq::empty(), first).units.len() == 0,
        Cutting::of(Seq::empty(), first).held == first,
        Cutting::of(first, rest).units == seq![seq![CANCEL] + (first + rest)],
        Cutting::of(first, rest).held.len() == 0,
{
    let s = first + rest;
    let m = first.len() as int;
    assert(s.subrange(0, m) =~= first);
    assert(s.subrange(m, s.len() as int) =~= rest);
    // The first piece, from nothing.
    lemma_control_steps(s, 0, m);
    assert(s.subrange(0, 0) =~= Seq::<u8>::empty());
    assert(s.subrange(0, s.len() as int) =~= s);
    assert(Cutting::begun(Seq::empty()) == held_alone(s, 0));
    lemma_same_steps(held_alone(s, 0), s, first, m);
    assert(Cutting::begun(Seq::empty()).steps(first, m) == held_alone(s, m));
    if m == 0 {
        assert(whole_end(seq![CANCEL]) == 1);
        assert(seq![CANCEL].subrange(1, 1) =~= Seq::<u8>::empty());
        assert(Cutting::of(Seq::empty(), first).held =~= first);
    }
    // The rest, from the first piece.
    let k = rest.len() as int;
    lemma_control_steps(s, m, k - 1);
    assert(Cutting::begun(first) == held_alone(s, m));
    let shifted = s.subrange(m, s.len() as int);
    assert(shifted =~= rest);
    let before_last = held_alone(s, m).steps(rest, k - 1);
    assert(before_last == held_alone(s, s.len() - 1));
    let last = rest[k - 1];
    assert(last == s[s.len() - 1]);
    assert(s.subrange(0, s.len() - 1).push(last) =~= s);
    let done = before_last.step(last);
    assert(before_last.held.len() >= 1);
    if before_last.held.len() >= 2 {
        assert(before_last.held[1] == 0x5B);
    }
    assert(done == before_last.finished(last));
    assert(done.units =~= seq![seq![CANCEL] + s]);
    assert(done.held.len() == 0);
    assert(whole_end(seq![CANCEL]) == 1);
    assert(Cutting::of(first, rest).units =~= seq![seq![CANCEL] + s]);
    assert(seq![CANCEL].subrange(1, 1) =~= Seq::<u8>::empty());
}

/// The cutting in which the first `n` bytes of `s` are held back and
/// nothing else has come.
pub open spec fn held_alone(s: Seq<u8>, n: int) -> Cutting {
    Cutting { held: s.subrange(0, n), run: seq![CANCEL], units: Seq::empty() }
}

/// While a control sequence has not ended, each byte of it is held back.
proof fn lemma_control_steps(s: Seq<u8>, m: int, k: int)
    requires
        whole_control(s),
        0 <= m,
        0 <= k,
        m + k <= s.len() - 1,
    ensures
        held_alone(s, m).steps(s.subrange(m, s.len() as int), k) == held_alone(s, m + k),
    decreases k,
{
    let rest = s.subrange(m, s.len() as int);
    if k > 0 {
        lemma_control_steps(s, m, k - 1);
        let before = held_alone(s, m + k - 1);
        let b = rest[k - 1];
        assert(b == s[m + k - 1]);
        assert(before.held.push(b) =~= s.subrange(0, m + k));
        if m + k - 1 >= 2 {
            assert(before.held[1] == s[1]);
        }
        assert(before.step(b).held =~= s.subrange(0, m + k));
        assert(before.step(b) == held_alone(s, m + k));
    }
}

/// The first steps of a cutting go by the first bytes alone.
proof fn lemma_same_steps(c: Cutting, s: Seq<u8>, first: Seq<u8>, n: int)
    requires
        0 <= n <= first.len(),
        first.len() <= s.len(),
        forall|i: int| 0 <= i < first.len() ==> first[i] == s[i],
    ensures
        c.steps(first, n) == c.steps(s, n),
    decreases n,
{
    if n > 0 {
        lemma_same_steps(c, s, first, n - 1);
    }
}

/// The bytes that a list of units hands on, in their order: each unit
/// without the cancel that it begins with.
pub open spec fn passed(units: Seq<Seq<u8>>) -> Seq<u8>
    decreases units.len(),
{
    if units.len() == 0 {
        Seq::empty()
    } else {
        passed(units.drop_last()) + units.last().skip(1)
    }
}

/// The beginning of a character that is held back, if that is what is
/// held back.
pub open spec fn held_character(held: Seq<u8>) -> Seq<u8> {
    if held.len() > 0 && held[0] != ESCAPE {
        held
    } else {
        Seq::empty()
    }
}

/// The sequence that is held back, if that is what is held back.
pub open spec fn held_sequence(held: Seq<u8>) -> Seq<u8> {
    if held.len() > 0 && held[0] == ESCAPE {
        held
    } else {
        Seq::empty()
    }
}

/// Output that comes in two pieces is cut as if it had come in one: the
/// bytes that are handed on, followed by the beginning of a character that
/// is held back, are the same in the same order, and the same sequence is
/// held back. So nothing is lost, doubled or moved where the output is
/// split.
pub proof fn lemma_pieces_pass_as_one(held: Seq<u8>, first: Seq<u8>, rest: Seq<u8>)
    ensures
        ({
            let a = Cutting::of(held, first);
            let b = Cutting::of(a.held, rest);
            let whole = Cutting::of(held, first + rest);
            &&& passed(a.units) + passed(b.units) + held_character(b.held) == passed(whole.units)
                + held_character(whole.held)
            &&& held_sequence(b.held) == held_sequence(whole.held)
        }),
{
    let m = first.len() as int;
    let k = rest.len() as int;
    let joined = first + rest;
    let start = Cutting::begun(held);
    let middle = start.steps(first, m);
    let a = middle.ended();
    let again = Cutting::begun(a.held);
    lemma_steps_in_order(start, first, m);
    lemma_break_keeps(middle);
    lemma_steps_keep(middle, again, passed(a.units), rest, k);
    lemma_steps_join(start, first, rest, k);
    let one = middle.steps(rest, k);
    let two = again.steps(rest, k);
    lemma_steps_in_order(middle, rest, k);
    lemma_steps_in_order(again, rest, k);
    lemma_end_keeps(one);
    lemma_end_keeps(two);
    let b = two.ended();
    let whole = one.ended();
    assert(whole == Cutting::of(held, joined));
    assert((passed(a.units) + passed(b.units)) + held_character(b.held) =~= passed(a.units) + (
    passed(b.units) + held_character(b.held)));
}

/// A cutting is in order where it has a run, which is the cancel alone
/// while a sequence is held back, and holds back nothing but a sequence.
spec fn in_order(c: Cutting) -> bool {
    &&& c.run.len() >= 1
    &&& c.held.len() > 0 ==> c.held[0] == ESCAPE && c.run =~= seq![CANCEL]
}

/// What a cutting has handed on and gathered.
spec fn gathered(c: Cutting) -> Seq<u8> {
    passed(c.units) + c.run.skip(1)
}

/// A unit more hands on what it holds after its cancel.
proof fn lemma_passed_push(units: Seq<Seq<u8>>, unit: Seq<u8>)
    ensures
        passed(units.push(unit)) == passed(units) + unit.skip(1),
{
    assert(units.push(unit).drop_last() =~= units);
}

/// One byte keeps a cutting in order.
proof fn lemma_step_in_order(c: Cutting, b: u8)
    requires
        in_order(c),
    ensures
        in_order(c.step(b)),
{
}

/// The bytes keep a cutting in order.
proof fn lemma_steps_in_order(c: Cutting, bytes: Seq<u8>, n: int)
    requires
        in_order(c),
    ensures
        in_order(c.steps(bytes, n)),
    decreases n,
{
    if n > 0 {
        lemma_steps_in_order(c, bytes, n - 1);
        lemma_step_in_order(c.steps(bytes, n - 1), bytes[n - 1]);
    }
}

/// The steps over two pieces in a row are the steps over the two as one.
proof fn lemma_steps_join(c: Cutting, first: Seq<u8>, rest: Seq<u8>, k: int)
    requires
        0 <= k <= rest.len(),
    ensures
        c.steps(first + rest, first.len() + k) == c.steps(first, first.len() as int).steps(rest, k),
    decreases k,
{
    if k > 0 {
        lemma_steps_join(c, first, rest, k - 1);
        assert((first + rest)[first.len() + k - 1] == rest[k - 1]);
    } else {
        lemma_same_steps(c, first + rest, first, first.len() as int);
    }
}

/// One byte more hands on the same from two cuttings that hold back the
/// same.
proof fn lemma_step_keeps(one: Cutting, two: Cutting, before: Seq<u8>, b: u8)
    requires
        in_order(one),
        in_order(two),
        one.held == two.held,
        gathered(one) == before + gathered(two),
    ensures
        one.step(b).held == two.step(b).held,
        gathered(one.step(b)) == before + gathered(two.step(b)),
{
    let held = one.held;
    let longer = held.push(b);
    lemma_passed_push(one.units, one.run);
    lemma_passed_push(two.units, two.run);
    lemma_passed_push(one.units, one.run.push(b));
    lemma_passed_push(two.units, two.run.push(b));
    lemma_passed_push(one.units, seq![CANCEL] + held);
    lemma_passed_push(two.units, seq![CANCEL] + held);
    lemma_passed_push(one.units, seq![CANCEL] + longer);
    lemma_passed_push(two.units, seq![CANCEL] + longer);
    assert((seq![CANCEL] + held).skip(1) =~= held);
    assert((seq![CANCEL] + longer).skip(1) =~= longer);
    assert(seq![CANCEL].skip(1) =~= Seq::<u8>::empty());
    assert(one.run.push(b).skip(1) =~= one.run.skip(1).push(b));
    assert(two.run.push(b).skip(1) =~= two.run.skip(1).push(b));
    let g1 = gathered(one);
    let g2 = gathered(two);
    assert(passed(one.units) + one.run.skip(1).push(b) =~= g1.push(b));
    assert(passed(two.units) + two.run.skip(1).push(b) =~= g2.push(b));
    assert((before + g2).push(b) =~= before + g2.push(b));
    assert((before + g2) + held =~= before + (g2 + held));
    assert((before + g2) + longer =~= before + (g2 + longer));
    if held.len() > 0 {
        assert(g1 =~= passed(one.units));
        assert(g2 =~= passed(two.units));
        assert(passed(one.units) + held + Seq::<u8>::empty() =~= g1 + held);
        assert(passed(two.units) + held + Seq::<u8>::empty() =~= g2 + held);
        assert(passed(one.units) + longer + Seq::<u8>::empty() =~= g1 + longer);
        assert(passed(two.units) + longer + Seq::<u8>::empty() =~= g2 + longer);
        assert(seq![CANCEL].push(b).skip(1) =~= seq![b]);
        assert(passed(one.units) + seq![b] + Seq::<u8>::empty() =~= g1.push(b));
        assert(passed(two.units) + seq![b] + Seq::<u8>::empty() =~= g2.push(b));
    }
    assert(gathered(one.step(b)) =~= before + gathered(two.step(b)));
}

/// The same bytes hand on the same from two cuttings that hold back the
/// same.
proof fn lemma_steps_keep(one: Cutting, two: Cutting, before: Seq<u8>, bytes: Seq<u8>, n: int)
    requires
        in_order(one),
        in_order(two),
        one.held == two.held,
        gathered(one) == before + gathered(two),
    ensures
        one.steps(bytes, n).held == two.steps(bytes, n).held,
        gathered(one.steps(bytes, n)) == before + gathered(two.steps(bytes, n)),
    decreases n,
{
    if n > 0 {
        lemma_steps_keep(one, two, before, bytes, n - 1);
        lemma_steps_in_order(one, bytes, n - 1);
        lemma_steps_in_order(two, bytes, n - 1);
        lemma_step_keeps(one.steps(bytes, n - 1), two.steps(bytes, n - 1), before, bytes[n - 1]);
    }
}

/// Where the output breaks off and goes on, the cutting goes on in order
/// with the same held back, and with what was cut off at the break handed
/// on.
proof fn lemma_break_keeps(c: Cutting)
    requires
        in_order(c),
    ensures
        in_order(Cutting::begun(c.ended().held)),
        Cutting::begun(c.ended().held).held == c.held,
        gathered(c) == passed(c.ended().units) + gathered(Cutting::begun(c.ended().held)),
{
    let a = c.ended();
    let again = Cutting::begun(a.held);
    assert(seq![CANCEL].skip(1) =~= Seq::<u8>::empty());
    if c.held.len() == 0 {
        let end = whole_end(c.run);
        let front = c.run.subrange(0, end);
        let tail = c.run.subrange(end, c.run.len() as int);
        lemma_passed_push(c.units, front);
        assert(a.held == tail);
        if tail.len() > 0 {
            assert(tail[0] == c.run[end]);
            assert(to_come(tail[0]) >= 1);
            assert((seq![CANCEL] + tail).skip(1) =~= tail);
        }
        assert(again.held =~= c.held);
        assert(front.skip(1) + tail =~= c.run.skip(1));
        assert(gathered(again) =~= tail);
        assert(passed(c.units) + front.skip(1) + tail =~= passed(c.units) + c.run.skip(1));
        if end == 1 {
            assert(front.skip(1) =~= Seq::<u8>::empty());
            assert(passed(c.units) + tail =~= passed(c.units) + front.skip(1) + tail);
        }
    } else {
        assert(passed(c.units) + Seq::<u8>::empty() =~= passed(c.units));
        assert(gathered(again) =~= Seq::<u8>::empty());
    }
}

/// At its end a cutting has handed on, or holds back as the beginning of a
/// character, all that it had gathered, and holds back the sequence that it
/// held back.
proof fn lemma_end_keeps(c: Cutting)
    requires
        in_order(c),
    ensures
        passed(c.ended().units) + held_character(c.ended().held) == gathered(c),
        held_sequence(c.ended().held) == c.held,
{
    let a = c.ended();
    assert(seq![CANCEL].skip(1) =~= Seq::<u8>::empty());
    if c.held.len() == 0 {
        let end = whole_end(c.run);
        let front = c.run.subrange(0, end);
        let tail = c.run.subrange(end, c.run.len() as int);
        lemma_passed_push(c.units, front);
        assert(a.held == tail);
        if tail.len() > 0 {
            assert(tail[0] == c.run[end]);
            assert(to_come(tail[0]) >= 1);
        }
        assert(held_character(a.held) =~= tail);
        assert(held_sequence(a.held) =~= c.held);
        assert(front.skip(1) + tail =~= c.run.skip(1));
        assert(passed(c.units) + front.skip(1) + tail =~= passed(c.units) + c.run.skip(1));
        if end == 1 {
            assert(front.skip(1) =~= Seq::<u8>::empty());
            assert(passed(c.units) + tail =~= passed(c.units) + front.skip(1) + tail);
        }
    } else {
        assert(passed(c.units) + Seq::<u8>::empty() =~= passed(c.units));
    }
}

/// Cuts the plain output that has gathered off as a unit, if there is any,
/// and begins a new run.
fn flush(run: &mut Vec<u8>, units: &mut Vec<Vec<u8>>, Ghost(cutting): Ghost<Cutting>)
    requires
        old(run)@ == cutting.run,
        unit_views(old(units)@) == cutting.units,
    ensures
        final(run)@ == cutting.flushed().run,
        unit_views(final(units)@) == cutting.flushed().units,
{
    if run.len() > 1 {
        let mut unit: Vec<u8> = Vec::new();
        std::mem::swap(&mut unit, run);
        units.push(unit);
        assert(unit_views(units@) =~= cutting.units.push(cutting.run));
    }
    run.clear();
    run.push(CANCEL);
    assert(run@ =~= seq![CANCEL]);
}

/// Cuts the sequence that is held back off as a unit, with a cancel before
/// it.
fn dispatch(held: &mut Vec<u8>, units: &mut Vec<Vec<u8>>, Ghost(cutting): Ghost<Cutting>)
    requires
        old(held)@ == cutting.held,
        unit_views(old(units)@) == cutting.units,
    ensures
        final(held)@ == cutting.dispatched().held,
        unit_views(final(units)@) == cutting.dispatched().units,
{
    let mut unit: Vec<u8> = Vec::new();
    unit.push(CANCEL);
    unit.extend_from_slice(held.as_slice());
    assert(unit@ =~= seq![CANCEL] + cutting.held);
    units.push(unit);
    assert(unit_views(units@) =~= cutting.units.push(seq![CANCEL] + cutting.held));
    held.clear();
}

/// Ends the held sequence at an escape.
fn give_up(held: &mut Vec<u8>, units: &mut Vec<Vec<u8>>, Ghost(cutting): Ghost<Cutting>)
    requires
        old(held)@ == cutting.held,
        unit_views(old(units)@) == cutting.units,
    ensures
        final(held)@ == cutting.given_up().held,
        unit_views(final(units)@) == cutting.given_up().units,
{
    if held.len() >= 2 && is_string_start(held[1]) {
        dispatch(held, units, Ghost(cutting));
    } else {
        held.clear();
    }
}

/// Takes one more byte into the held sequence, if there is room for it.
fn take(held: &mut Vec<u8>, b: u8, Ghost(cutting): Ghost<Cutting>)
    requires
        old(held)@ == cutting.held,
    ensures
        final(held)@ == cutting.taken(b).held,
{
    if held.len() < HELD_LIMIT {
        held.push(b);
    }
}

/// Ends a sequence that is no string with the byte `b`.
fn finish(held: &mut Vec<u8>, units: &mut Vec<Vec<u8>>, b: u8, Ghost(cutting): Ghost<Cutting>)
    requires
        old(held)@ == cutting.held,
        unit_views(old(units)@) == cutting.units,
    ensures
        final(held)@ == cutting.finished(b).held,
        unit_views(final(units)@) == cutting.finished(b).units,
{
    if held.len() < HELD_LIMIT {
        held.push(b);
        dispatch(held, units, Ghost(Cutting { held: cutting.held.push(b), ..cutting }));
    } else {
        held.clear();
    }
}

/// Decides whether the byte `b` ends the string that is held back.
fn string_ends(held: &Vec<u8>, b: u8) -> (ends: bool)
    requires
        held@.len() >= 2,
    ensures
        ends == ends_string(held@, b),
{
    if b == CANCEL || b == SUBSTITUTE {
        true
    } else if held[1] == COMMAND {
        b == BELL
    } else if b == STRING_END {
        held[1] != DEVICE || is_past_header(held)
    } else {
        false
    }
}

/// Cuts `bytes` into units. `held` is what the output before it ended in
/// the middle of, and what this output ends in the middle of afterwards.
pub fn cut(held: &mut Vec<u8>, bytes: &[u8]) -> (units: Vec<Vec<u8>>)
    ensures
        unit_views(units@) == Cutting::of(old(held)@, bytes@).units,
        final(held)@ == Cutting::of(old(held)@, bytes@).held,
{
    let ghost start = Cutting::begun(held@);
    let mut units: Vec<Vec<u8>> = Vec::new();
    let mut run: Vec<u8> = Vec::new();
    run.push(CANCEL);
    if held.len() > 0 && held[0] != ESCAPE {
        run.extend_from_slice(held.as_slice());
        held.clear();
    }
    assert(run@ =~= start.run);
    assert(held@ =~= start.held);
    assert(unit_views(units@) =~= start.units);
    let mut i: usize = 0;
    while i < bytes.len()
        invariant
            i <= bytes@.len(),
            held@ == start.steps(bytes@, i as int).held,
            run@ == start.steps(bytes@, i as int).run,
            unit_views(units@) == start.steps(bytes@, i as int).units,
        decreases bytes@.len() - i,
    {
        let ghost now = start.steps(bytes@, i as int);
        let b = bytes[i];
        if held.len() == 0 {
            if b == ESCAPE {
                flush(&mut run, &mut units, Ghost(now));
                held.push(b);
                assert(held@ =~= seq![ESCAPE]);
            } else {
                run.push(b);
            }
        } else if b == ESCAPE {
            give_up(held, &mut units, Ghost(now));
            held.clear();
            held.push(b);
            assert(held@ =~= seq![ESCAPE]);
        } else if held.len() >= 2 && is_string_start(held[1]) {
            if string_ends(held, b) {
                held.push(b);
                dispatch(held, &mut units, Ghost(Cutting { held: now.held.push(b), ..now }));
            } else {
                take(held, b, Ghost(now));
            }
        } else if b == CANCEL || b == SUBSTITUTE {
            held.clear();
        } else if b < 0x20 {
            run.push(b);
            flush(&mut run, &mut units, Ghost(Cutting { run: now.run.push(b), ..now }));
        } else if b >= 0x7F {
        } else if held.len() == 1 {
            if !(0x20 <= b && b <= 0x2F) && b != 0x5B && !is_string_start(b) {
                finish(held, &mut units, b, Ghost(now));
            } else {
                take(held, b, Ghost(now));
            }
        } else if held[1] == 0x5B {
            if b >= 0x40 {
                finish(held, &mut units, b, Ghost(now));
            } else {
                take(held, b, Ghost(now));
            }
        } else {
            if b >= 0x30 {
                finish(held, &mut units, b, Ghost(now));
            } else {
                take(held, b, Ghost(now));
            }
        }
        i += 1;
    }
    let ghost all = start.steps(bytes@, bytes@.len() as int);
    if held.len() == 0 {
        let end = whole_characters(&run);
        let mut tail = run.split_off(end);
        held.append(&mut tail);
        assert(held@ =~= all.run.subrange(end as int, all.run.len() as int));
        flush(
            &mut run,
            &mut units,
            Ghost(
                Cutting {
                    held: all.run.subrange(end as int, all.run.len() as int),
                    run: all.run.subrange(0, end as int),
                    ..all
                },
            ),
        );
    } else {
        flush(&mut run, &mut units, Ghost(all));
    }
    units
}

} // verus!
