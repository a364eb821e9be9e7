//! The dump itself: the input cut into windows of sixteen bytes, a line for
//! each window, `*` for a run of repeated windows, and the closing byte count.

use vstd::prelude::*;
use vstd::string::*;
use crate::hex::{get_hex_value_for_four_byte, spec_hex};
use crate::line::{check_is_little_endian, get_byte_line, is_byte_vec_equal, spec_byte_line};

verus! {

/// The input as far as the limit lets it through. A limit of zero is no limit.
pub open spec fn spec_limited(input: Seq<u8>, size: u32) -> Seq<u8> {
    if size > 0 && input.len() > size {
        input.take(size as int)
    } else {
        input
    }
}

/// How many windows an input of `len` bytes is cut into. An empty input
/// still has one window, which is empty.
pub open spec fn spec_window_count(len: nat) -> nat {
    if len == 0 {
        1
    } else {
        (len + 15) / 16
    }
}

/// The window at `index`: up to sixteen bytes from position `16 * index` on.
pub open spec fn spec_window(input: Seq<u8>, index: int) -> Seq<u8> {
    if 0 <= index && 16 * index <= input.len() {
        if 16 * index + 16 <= input.len() {
            input.subrange(16 * index, 16 * index + 16)
        } else {
            input.subrange(16 * index, input.len() as int)
        }
    } else {
        Seq::empty()
    }
}

/// All windows of an input, in order.
pub open spec fn spec_windows(input: Seq<u8>) -> Seq<Seq<u8>> {
    Seq::new(spec_window_count(input.len()), |index: int| spec_window(input, index))
}

/// The windows laid end to end.
pub open spec fn spec_concat(windows: Seq<Seq<u8>>) -> Seq<u8>
    decreases windows.len(),
{
    if windows.len() == 0 {
        Seq::empty()
    } else {
        spec_concat(windows.drop_last()) + windows.last()
    }
}

/// Whether the window at `index` repeats the one just before it. The first
/// window has none before it and repeats nothing.
pub open spec fn spec_is_repeat(input: Seq<u8>, index: int) -> bool {
    index > 0 && spec_window(input, index) == spec_window(input, index - 1)
}

/// The line that marks a run of repeated windows.
pub open spec fn spec_star() -> Seq<char> {
    seq!['*']
}

/// What the window at `index` adds to the output: its line if it differs
/// from the window before it, `*` if it is the first repeat of a run, and
/// nothing for a further repeat.
pub open spec fn spec_window_output(input: Seq<u8>, index: int, is_little_endian: bool) -> Seq<
    Seq<char>,
> {
    if !spec_is_repeat(input, index) {
        seq![spec_byte_line(spec_window(input, index), (16 * index) as nat, is_little_endian)]
    } else if !spec_is_repeat(input, index - 1) {
        seq![spec_star()]
    } else {
        Seq::empty()
    }
}

/// The output of the first `count` windows.
pub open spec fn spec_lines_upto(input: Seq<u8>, count: nat, is_little_endian: bool) -> Seq<
    Seq<char>,
>
    decreases count,
{
    if count == 0 {
        Seq::empty()
    } else {
        spec_lines_upto(input, (count - 1) as nat, is_little_endian) + spec_window_output(
            input,
            count - 1,
            is_little_endian,
        )
    }
}

/// The output of every window but the last: the lines that no further input
/// can change.
pub open spec fn spec_settled_lines(input: Seq<u8>, is_little_endian: bool) -> Seq<Seq<char>> {
    spec_lines_upto(input, (spec_window_count(input.len()) - 1) as nat, is_little_endian)
}

/// The whole dump of an input: the output of each window, then the number
/// of bytes as eight hexadecimal digits.
pub open spec fn spec_dump(input: Seq<u8>, is_little_endian: bool) -> Seq<Seq<char>> {
    spec_lines_upto(input, spec_window_count(input.len()), is_little_endian).push(
        spec_hex(input.len(), 8),
    )
}

/// The text of each line.
pub open spec fn spec_lines(lines: Seq<String>) -> Seq<Seq<char>> {
    Seq::new(lines.len(), |i: int| lines[i]@)
}

/// The text of a line that may be absent, as a sequence of lines.
pub open spec fn spec_optional_line(line: Option<String>) -> Seq<Seq<char>> {
    match line {
        Some(text) => seq![text@],
        None => Seq::empty(),
    }
}

/// A window that lies wholly inside a prefix of the input is the same window
/// of that prefix.
pub proof fn lemma_window_of_prefix(input: Seq<u8>, longer: Seq<u8>, index: int)
    requires
        input.len() <= longer.len(),
        longer.take(input.len() as int) == input,
        0 <= index,
        16 * index + 16 <= input.len(),
    ensures
        spec_window(input, index) == spec_window(longer, index),
{
    let shorter = longer.take(input.len() as int);
    assert forall|p: int| 0 <= p < input.len() implies #[trigger] input[p] == longer[p] by {
        assert(shorter[p] == longer[p]);
    }
    assert(spec_window(input, index) =~= spec_window(longer, index));
}

/// The output of a window that lies wholly inside a prefix of the input is
/// its output in that prefix.
pub proof fn lemma_window_output_of_prefix(
    input: Seq<u8>,
    longer: Seq<u8>,
    index: int,
    is_little_endian: bool,
)
    requires
        input.len() <= longer.len(),
        longer.take(input.len() as int) == input,
        0 <= index,
        16 * index + 16 <= input.len(),
    ensures
        spec_is_repeat(input, index) == spec_is_repeat(longer, index),
        spec_window_output(input, index, is_little_endian) == spec_window_output(
            longer,
            index,
            is_little_endian,
        ),
{
    lemma_window_of_prefix(input, longer, index);
    if index >= 1 {
        lemma_window_of_prefix(input, longer, index - 1);
    }
    if index >= 2 {
        lemma_window_of_prefix(input, longer, index - 2);
    }
}

/// The output of the windows that lie wholly inside a prefix of the input
/// is their output in that prefix.
pub proof fn lemma_lines_of_prefix(
    input: Seq<u8>,
    longer: Seq<u8>,
    count: nat,
    is_little_endian: bool,
)
    requires
        input.len() <= longer.len(),
        longer.take(input.len() as int) == input,
        16 * count <= input.len(),
    ensures
        spec_lines_upto(input, count, is_little_endian) == spec_lines_upto(
            longer,
            count,
            is_little_endian,
        ),
    decreases count,
{
    if count > 0 {
        lemma_lines_of_prefix(input, longer, (count - 1) as nat, is_little_endian);
        lemma_window_output_of_prefix(input, longer, count - 1, is_little_endian);
    }
}

/// The first `count` windows laid end to end are the input up to the end of
/// the last of them.
proof fn lemma_concat_prefix(input: Seq<u8>, count: nat)
    requires
        count <= spec_window_count(input.len()),
    ensures
        16 * count <= input.len() ==> spec_concat(spec_windows(input).take(count as int))
            == input.take(16 * count as int),
        16 * count > input.len() ==> spec_concat(spec_windows(input).take(count as int)) == input,
    decreases count,
{
    let windows = spec_windows(input);
    if count == 0 {
        assert(windows.take(0) =~= Seq::<Seq<u8>>::empty());
        assert(input.take(0) =~= Seq::<u8>::empty());
        assert(spec_concat(windows.take(0)) =~= Seq::<u8>::empty());
    } else {
        lemma_concat_prefix(input, (count - 1) as nat);
        let upto = windows.take(count as int);
        assert(upto.drop_last() =~= windows.take(count - 1));
        assert(upto.last() == spec_window(input, count - 1));
        if 16 * count <= input.len() {
            assert(input.take(16 * (count - 1)) + spec_window(input, count - 1) =~= input.take(
                16 * count as int,
            ));
        } else {
            assert(input.take(16 * (count - 1)) + spec_window(input, count - 1) =~= input);
        }
    }
}

/// Cutting an input into windows loses and reorders nothing: the windows
/// laid end to end are the input again. Every window but the last has
/// sixteen bytes, and the last has between one and sixteen, or none where
/// the input is empty.
pub proof fn lemma_windows_rebuild_input(input: Seq<u8>)
    ensures
        spec_windows(input).len() >= 1,
        spec_concat(spec_windows(input)) == input,
        forall|index: int|
            0 <= index < spec_windows(input).len() - 1 ==> (#[trigger] spec_windows(
                input,
            )[index]).len() == 16,
        input.len() > 0 ==> 1 <= spec_windows(input).last().len() <= 16,
        input.len() == 0 ==> spec_windows(input) == seq![Seq::<u8>::empty()],
{
    let windows = spec_windows(input);
    lemma_concat_prefix(input, windows.len());
    assert(windows.take(windows.len() as int) =~= windows);
    if 16 * windows.len() <= input.len() {
        assert(input.take(16 * windows.len() as int) =~= input);
    }
    if input.len() == 0 {
        assert(windows[0] =~= Seq::<u8>::empty());
        assert(windows =~= seq![Seq::<u8>::empty()]);
    }
}

/// A line that shows a window is never the line `*`.
pub proof fn lemma_byte_line_is_no_star(bytes: Seq<u8>, offset: nat, is_little_endian: bool)
    ensures
        spec_byte_line(bytes, offset, is_little_endian) != spec_star(),
{
    crate::line::lemma_byte_line_len(bytes, offset, is_little_endian);
}

/// In the output of the first `count` windows no `*` follows a `*`, and it
/// ends in a window's line wherever its last window is no repeat.
proof fn lemma_stars_apart(input: Seq<u8>, count: nat, is_little_endian: bool)
    ensures
        forall|i: int|
            0 <= i && i + 1 < spec_lines_upto(input, count, is_little_endian).len() ==> !(
            #[trigger] spec_lines_upto(input, count, is_little_endian)[i] == spec_star()
                && spec_lines_upto(input, count, is_little_endian)[i + 1] == spec_star()),
        count > 0 && !spec_is_repeat(input, count - 1) ==> spec_lines_upto(
            input,
            count,
            is_little_endian,
        ).len() > 0 && spec_lines_upto(input, count, is_little_endian).last() != spec_star(),
    decreases count,
{
    if count > 0 {
        let before = spec_lines_upto(input, (count - 1) as nat, is_little_endian);
        let added = spec_window_output(input, count - 1, is_little_endian);
        let lines = spec_lines_upto(input, count, is_little_endian);
        assert(lines == before + added);
        lemma_stars_apart(input, (count - 1) as nat, is_little_endian);
        lemma_byte_line_is_no_star(
            spec_window(input, count - 1),
            (16 * (count - 1)) as nat,
            is_little_endian,
        );
        assert forall|i: int| 0 <= i && i + 1 < lines.len() implies !(#[trigger] lines[i]
            == spec_star() && lines[i + 1] == spec_star()) by {
            if i + 1 < before.len() {
                assert(lines[i] == before[i]);
                assert(lines[i + 1] == before[i + 1]);
            } else {
                assert(added.len() == 1);
                assert(lines[i + 1] == added[0]);
                assert(lines[i] == before.last());
                if added[0] == spec_star() {
                    assert(!spec_is_repeat(input, count - 2));
                }
            }
        }
        if !spec_is_repeat(input, count - 1) {
            assert(lines.last() == added[0]);
        }
    }
}

/// A run of repeated windows shows as a single `*`: nowhere in a dump does
/// one `*` line follow another.
pub proof fn lemma_no_adjacent_stars(input: Seq<u8>, is_little_endian: bool, i: int)
    requires
        0 <= i,
        i + 1 < spec_dump(input, is_little_endian).len(),
    ensures
        !(spec_dump(input, is_little_endian)[i] == spec_star() && spec_dump(
            input,
            is_little_endian,
        )[i + 1] == spec_star()),
{
    let count = spec_window_count(input.len());
    lemma_stars_apart(input, count, is_little_endian);
    crate::hex::lemma_hex_len(input.len(), 8);
    let body = spec_lines_upto(input, count, is_little_endian);
    if i + 1 < body.len() {
        assert(body[i] == spec_dump(input, is_little_endian)[i]);
    }
}

/// A dump opens with the line of the first window, at offset zero, and
/// closes with the byte count. For an empty input these are its two lines.
pub proof fn lemma_dump_ends(input: Seq<u8>, is_little_endian: bool)
    ensures
        spec_dump(input, is_little_endian).len() >= 2,
        spec_dump(input, is_little_endian)[0] == spec_byte_line(
            spec_window(input, 0),
            0,
            is_little_endian,
        ),
        spec_dump(input, is_little_endian).last() == spec_hex(input.len(), 8),
        input.len() == 0 ==> spec_dump(input, is_little_endian) == seq![
            spec_hex(0, 8),
            spec_hex(0, 8),
        ],
{
    let count = spec_window_count(input.len());
    lemma_first_line(input, count, is_little_endian);
    if input.len() == 0 {
        assert(spec_lines_upto(input, 0, is_little_endian) =~= Seq::<Seq<char>>::empty());
        assert(spec_window(input, 0) =~= Seq::<u8>::empty());
        assert(crate::line::spec_words(Seq::<u8>::empty(), is_little_endian) =~= Seq::<
            u16,
        >::empty());
        assert(spec_byte_line(Seq::<u8>::empty(), 0, is_little_endian) =~= spec_hex(0, 8));
        assert(spec_dump(input, is_little_endian) =~= seq![spec_hex(0, 8), spec_hex(0, 8)]);
    }
}

/// The output of one or more windows opens with the line of the first.
proof fn lemma_first_line(input: Seq<u8>, count: nat, is_little_endian: bool)
    requires
        count >= 1,
    ensures
        spec_lines_upto(input, count, is_little_endian).len() >= 1,
        spec_lines_upto(input, count, is_little_endian)[0] == spec_byte_line(
            spec_window(input, 0),
            0,
            is_little_endian,
        ),
    decreases count,
{
    if count == 1 {
        assert(spec_lines_upto(input, 0, is_little_endian) =~= Seq::<Seq<char>>::empty());
    } else {
        lemma_first_line(input, (count - 1) as nat, is_little_endian);
    }
}

/// Under a limit that the input exceeds, the dump is that of the first
/// `size` bytes and its closing line gives `size`, not the input's length.
pub proof fn lemma_limit_caps_dump(input: Seq<u8>, size: u32, is_little_endian: bool)
    requires
        size > 0,
        input.len() > size,
    ensures
        spec_limited(input, size) == input.take(size as int),
        spec_limited(input, size).len() == size,
        spec_dump(spec_limited(input, size), is_little_endian).last() == spec_hex(size as nat, 8),
{
}

/// Without a limit, or under one that the input does not exceed, the whole
/// input is dumped.
pub proof fn lemma_limit_spares_short_input(input: Seq<u8>, size: u32)
    requires
        size == 0 || input.len() <= size,
    ensures
        spec_limited(input, size) == input,
{
}

/// A byte that joins the last window settles no line.
proof fn lemma_push_into_window(before: Seq<u8>, byte: u8, is_little_endian: bool)
    requires
        before.len() % 16 != 0 || before.len() == 0,
    ensures
        spec_settled_lines(before.push(byte), is_little_endian) == spec_settled_lines(
            before,
            is_little_endian,
        ),
        before.len() >= 16 ==> spec_is_repeat(before.push(byte), before.len() / 16 - 1)
            == spec_is_repeat(before, before.len() / 16 - 1),
{
    let after = before.push(byte);
    let settled = (spec_window_count(before.len()) - 1) as nat;
    assert(after.take(before.len() as int) =~= before);
    assert(spec_window_count(after.len()) - 1 == settled);
    assert(16 * settled <= before.len());
    lemma_lines_of_prefix(before, after, settled, is_little_endian);
    if before.len() >= 16 {
        lemma_window_output_of_prefix(before, after, before.len() / 16 - 1, is_little_endian);
    }
}

/// A byte that opens a new window settles the output of the window before it.
proof fn lemma_push_opens_window(before: Seq<u8>, byte: u8, is_little_endian: bool)
    requires
        before.len() % 16 == 0,
        before.len() > 0,
    ensures
        spec_settled_lines(before.push(byte), is_little_endian) == spec_settled_lines(
            before,
            is_little_endian,
        ) + spec_window_output(before, before.len() / 16 - 1, is_little_endian),
        spec_is_repeat(before.push(byte), before.len() / 16 - 1) == spec_is_repeat(
            before,
            before.len() / 16 - 1,
        ),
{
    let after = before.push(byte);
    let last = before.len() / 16 - 1;
    assert(after.take(before.len() as int) =~= before);
    assert(spec_window_count(before.len()) - 1 == last);
    assert(spec_window_count(after.len()) - 1 == last + 1);
    lemma_lines_of_prefix(before, after, last as nat, is_little_endian);
    lemma_window_output_of_prefix(before, after, last, is_little_endian);
    assert(spec_lines_upto(after, (last + 1) as nat, is_little_endian) == spec_lines_upto(
        after,
        last as nat,
        is_little_endian,
    ) + spec_window_output(after, last, is_little_endian));
}

/// The state of a dump in progress. It takes the input one byte at a time
/// and hands out each line as soon as no further byte can change it.
pub struct Dumper {
    size: u32,
    is_little_endian: bool,
    byte_count: u32,
    offset: u32,
    curr_bytes: Vec<u8>,
    prev_bytes: Vec<u8>,
    is_star_printed: bool,
    seen: Ghost<Seq<u8>>,
}

impl Dumper {
    /// The bytes taken so far, in order.
    pub closed spec fn consumed(&self) -> Seq<u8> {
        self.seen@
    }

    /// The most bytes that the dump takes; zero for no limit.
    pub closed spec fn limit(&self) -> u32 {
        self.size
    }

    /// The byte order in which words are packed.
    pub closed spec fn little_endian(&self) -> bool {
        self.is_little_endian
    }

    /// The state is consistent: the counters, the window being filled, the
    /// window before it and the repeat flag all agree with the bytes taken.
    pub closed spec fn wf(&self) -> bool {
        let input = self.seen@;
        &&& input.len() == self.byte_count
        &&& self.offset + self.curr_bytes@.len() == self.byte_count
        &&& self.offset % 16 == 0
        &&& self.curr_bytes@.len() <= 16
        &&& (self.curr_bytes@.len() == 0 ==> self.byte_count == 0)
        &&& self.curr_bytes@ == input.skip(self.offset as int)
        &&& (self.offset > 0 ==> self.prev_bytes@ == input.subrange(
            self.offset - 16,
            self.offset as int,
        ))
        &&& self.is_star_printed == spec_is_repeat(input, self.offset / 16 - 1)
        &&& (self.size == 0 || self.byte_count <= self.size)
    }

    /// Whether the limit leaves room for another byte.
    pub open spec fn spec_accepts_more(&self) -> bool {
        self.limit() == 0 || self.consumed().len() < self.limit()
    }

    /// A dump that has taken nothing yet.
    pub fn new(size: u32, is_little_endian: bool) -> (dumper: Dumper)
        ensures
            dumper.wf(),
            dumper.consumed() == Seq::<u8>::empty(),
            dumper.limit() == size,
            dumper.little_endian() == is_little_endian,
    {
        let dumper = Dumper {
            size,
            is_little_endian,
            byte_count: 0,
            offset: 0,
            curr_bytes: Vec::new(),
            prev_bytes: Vec::new(),
            is_star_printed: false,
            seen: Ghost(Seq::empty()),
        };
        assert(dumper.curr_bytes@ =~= dumper.seen@.skip(0));
        dumper
    }

    /// Whether the limit leaves room for another byte.
    pub fn accepts_more(&self) -> (more: bool)
        requires
            self.wf(),
        ensures
            more == self.spec_accepts_more(),
    {
        self.size == 0 || self.byte_count < self.size
    }

    /// The number of bytes taken so far.
    pub fn byte_count(&self) -> (count: u32)
        requires
            self.wf(),
        ensures
            count == self.consumed().len(),
    {
        self.byte_count
    }

    /// The window being filled: the last window of the bytes taken so far.
    pub fn current_window(&self) -> (window: &Vec<u8>)
        requires
            self.wf(),
        ensures
            window@ == spec_windows(self.consumed()).last(),
    {
        assert(self.curr_bytes@ =~= spec_window(self.seen@, self.offset as int / 16));
        assert(spec_window_count(self.seen@.len()) - 1 == self.offset as int / 16);
        &self.curr_bytes
    }

    /// What the window being filled adds to the output, were it complete,
    /// and whether it repeats the window before it.
    fn window_line(&self) -> (out: (Option<String>, bool))
        requires
            self.wf(),
        ensures
            spec_optional_line(out.0) == spec_window_output(
                self.seen@,
                self.offset as int / 16,
                self.is_little_endian,
            ),
            out.1 == spec_is_repeat(self.seen@, self.offset as int / 16),
    {
        let ghost input = self.seen@;
        let ghost index = self.offset as int / 16;
        assert(self.curr_bytes@ =~= spec_window(input, index));
        assert(self.offset > 0 ==> self.prev_bytes@ =~= spec_window(input, index - 1));
        let repeats = self.offset > 0 && is_byte_vec_equal(&self.curr_bytes, &self.prev_bytes);
        if repeats {
            if !self.is_star_printed {
                proof {
                    reveal_strlit("*");
                    assert("*"@ =~= spec_star());
                }
                (Some(String::from_str("*")), true)
            } else {
                (None, true)
            }
        } else {
            (Some(get_byte_line(&self.curr_bytes, self.offset, self.is_little_endian)), false)
        }
    }

    /// Takes the next byte of the input. Returns the line that this byte
    /// settles, if any: a window's output is settled once the byte after it
    /// has come.
    pub fn push_byte(&mut self, byte: u8) -> (line: Option<String>)
        requires
            old(self).wf(),
            old(self).spec_accepts_more(),
            old(self).consumed().len() < u32::MAX,
        ensures
            final(self).wf(),
            final(self).consumed() == old(self).consumed().push(byte),
            final(self).limit() == old(self).limit(),
            final(self).little_endian() == old(self).little_endian(),
            spec_settled_lines(final(self).consumed(), final(self).little_endian())
                == spec_settled_lines(old(self).consumed(), old(self).little_endian())
                + spec_optional_line(line),
    {
        let ghost before = self.seen@;
        let ghost after = before.push(byte);
        if self.curr_bytes.len() < 16 {
            proof {
                lemma_push_into_window(before, byte, self.is_little_endian);
            }
            self.curr_bytes.push(byte);
            self.byte_count = self.byte_count + 1;
            self.seen = Ghost(after);
            proof {
                assert(self.curr_bytes@ =~= after.skip(self.offset as int));
                if self.offset > 0 {
                    assert(self.prev_bytes@ =~= after.subrange(
                        self.offset - 16,
                        self.offset as int,
                    ));
                }
                assert(spec_optional_line(None) =~= Seq::<Seq<char>>::empty());
                assert(spec_settled_lines(before, self.is_little_endian) + Seq::<
                    Seq<char>,
                >::empty() =~= spec_settled_lines(before, self.is_little_endian));
            }
            None
        } else {
            proof {
                lemma_push_opens_window(before, byte, self.is_little_endian);
            }
            let (line, repeats) = self.window_line();
            core::mem::swap(&mut self.prev_bytes, &mut self.curr_bytes);
            self.curr_bytes.clear();
            self.curr_bytes.push(byte);
            self.is_star_printed = repeats;
            self.offset = self.offset + 16;
            self.byte_count = self.byte_count + 1;
            self.seen = Ghost(after);
            proof {
                assert(self.curr_bytes@ =~= after.skip(self.offset as int));
                assert(self.prev_bytes@ =~= after.subrange(self.offset - 16, self.offset as int));
            }
            line
        }
    }

    /// Ends the dump: the output of the last window, then the number of
    /// bytes taken as eight hexadecimal digits.
    pub fn finish(self) -> (lines: Vec<String>)
        requires
            self.wf(),
        ensures
            spec_settled_lines(self.consumed(), self.little_endian()) + spec_lines(lines@)
                == spec_dump(self.consumed(), self.little_endian()),
    {
        let mut lines: Vec<String> = Vec::new();
        let (last_line, _) = self.window_line();
        match last_line {
            Some(line) => {
                lines.push(line);
            },
            None => {},
        }
        lines.push(get_hex_value_for_four_byte(self.byte_count));
        proof {
            let settled = spec_settled_lines(self.seen@, self.is_little_endian);
            let last = spec_window_output(
                self.seen@,
                self.offset as int / 16,
                self.is_little_endian,
            );
            assert(spec_lines(lines@) =~= last.push(spec_hex(self.seen@.len(), 8)));
            assert(settled + spec_lines(lines@) =~= spec_dump(
                self.seen@,
                self.is_little_endian,
            ));
        }
        lines
    }
}

/// Dumps a buffer in the given byte order: at most `size` bytes of it where
/// `size` is not zero, all of it otherwise. Returns the lines of the dump.
pub fn dump_lines(bytes: &Vec<u8>, size: u32, is_little_endian: bool) -> (lines: Vec<String>)
    requires
        spec_limited(bytes@, size).len() <= u32::MAX,
    ensures
        spec_lines(lines@) == spec_dump(spec_limited(bytes@, size), is_little_endian),
{
    let mut dumper = Dumper::new(size, is_little_endian);
    let mut lines: Vec<String> = Vec::new();
    let mut taken: usize = 0;
    assert(bytes@.take(0) =~= Seq::<u8>::empty());
    assert(spec_lines(lines@) =~= spec_settled_lines(bytes@.take(0), is_little_endian));
    while taken < bytes.len() && dumper.accepts_more()
        invariant
            spec_limited(bytes@, size).len() <= u32::MAX,
            taken <= bytes@.len(),
            size == 0 || taken <= size,
            dumper.wf(),
            dumper.limit() == size,
            dumper.little_endian() == is_little_endian,
            dumper.consumed() == bytes@.take(taken as int),
            spec_lines(lines@) == spec_settled_lines(bytes@.take(taken as int), is_little_endian),
        decreases bytes@.len() - taken,
    {
        let ghost before = lines@;
        let line = dumper.push_byte(bytes[taken]);
        assert(bytes@.take(taken + 1) =~= bytes@.take(taken as int).push(bytes@[taken as int]));
        match line {
            Some(text) => {
                lines.push(text);
                assert(spec_lines(lines@) =~= spec_lines(before) + seq![text@]);
            },
            None => {
                assert(spec_lines(lines@) =~= spec_lines(before) + Seq::<Seq<char>>::empty());
            },
        }
        taken = taken + 1;
    }
    assert(bytes@.take(taken as int) =~= spec_limited(bytes@, size));
    let ghost settled = lines@;
    let mut last_lines = dumper.finish();
    let ghost closing = last_lines@;
    lines.append(&mut last_lines);
    assert(spec_lines(lines@) =~= spec_lines(settled) + spec_lines(closing));
    lines
}

/// Dumps a buffer in the byte order of the machine: at most `size` bytes of
/// it where `size` is not zero, all of it otherwise. Returns the lines of
/// the dump.
pub fn hexdump(bytes: &Vec<u8>, size: u32) -> (lines: Vec<String>)
    requires
        spec_limited(bytes@, size).len() <= u32::MAX,
    ensures
        spec_lines(lines@) == spec_dump(spec_limited(bytes@, size), true) || spec_lines(lines@)
            == spec_dump(spec_limited(bytes@, size), false),
{
    let is_little_endian = check_is_little_endian();
    dump_lines(bytes, size, is_little_endian)
}

} // verus!
