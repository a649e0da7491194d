//! Storages of lines, as pagers and logs show them, and the two ways to
//! count lines: from zero, as an array does, and from one, as an editor does.

use vstd::prelude::*;
use vstd::std_specs::convert::FromSpecImpl;
use vstd::std_specs::ops::{AddSpecImpl, SubSpecImpl};
use vstd::std_specs::iter::IteratorSpec;
use crate::base::grapheme_cluster::{string_of_char, texts};

verus! {

/// The place of a line, counted from zero.
#[derive(Clone, Copy, PartialEq, Eq, PartialOrd, Debug, Hash)]
pub struct LineIndex(pub usize);

/// The number of a line, counted from one.
#[derive(Clone, Copy, PartialEq, Eq, PartialOrd, Debug, Hash)]
pub struct LineNumber(pub usize);

impl LineIndex {
    /// The index `rhs` lines further up, if there is one.
    pub fn checked_sub(&self, rhs: usize) -> (index: Option<LineIndex>)
        ensures
            index == if rhs <= self.0 {
                Some(LineIndex((self.0 - rhs) as usize))
            } else {
                None
            },
    {
        if rhs <= self.0 {
            Some(LineIndex(self.0 - rhs))
        } else {
            None
        }
    }

    /// The index of the line with the given number.
    pub fn from_number(number: LineNumber) -> (index: LineIndex)
        requires
            number.0 > 0,
        ensures
            index.0 == number.0 - 1,
    {
        LineIndex(number.0 - 1)
    }
}

impl FromSpecImpl<LineIndex> for usize {
    open spec fn obeys_from_spec() -> bool {
        true
    }

    open spec fn from_spec(index: LineIndex) -> usize {
        index.0
    }
}

impl From<LineIndex> for usize {
    fn from(index: LineIndex) -> (raw: usize) {
        index.0
    }
}

impl AddSpecImpl<usize> for LineIndex {
    open spec fn obeys_add_spec() -> bool {
        true
    }

    open spec fn add_req(self, rhs: usize) -> bool {
        self.0 + rhs <= usize::MAX
    }

    open spec fn add_spec(self, rhs: usize) -> LineIndex {
        LineIndex((self.0 + rhs) as usize)
    }
}

impl core::ops::Add<usize> for LineIndex {
    type Output = LineIndex;

    fn add(self, rhs: usize) -> (index: LineIndex) {
        LineIndex(self.0 + rhs)
    }
}

impl SubSpecImpl<usize> for LineIndex {
    open spec fn obeys_sub_spec() -> bool {
        true
    }

    open spec fn sub_req(self, rhs: usize) -> bool {
        rhs <= self.0
    }

    open spec fn sub_spec(self, rhs: usize) -> LineIndex {
        LineIndex((self.0 - rhs) as usize)
    }
}

impl core::ops::Sub<usize> for LineIndex {
    type Output = LineIndex;

    fn sub(self, rhs: usize) -> (index: LineIndex) {
        LineIndex(self.0 - rhs)
    }
}

impl LineNumber {
    /// A line number is at least one.
    pub open spec fn wf(self) -> bool {
        self.0 > 0
    }

    /// The number `rhs` lines further up, if there is one.
    pub fn checked_sub(&self, rhs: usize) -> (number: Option<LineNumber>)
        requires
            self.wf(),
        ensures
            number == if rhs < self.0 {
                Some(LineNumber((self.0 - rhs) as usize))
            } else {
                None
            },
    {
        let index = self.0 - 1;
        if rhs <= index {
            Some(LineNumber(index - rhs + 1))
        } else {
            None
        }
    }

    /// The number of the line with the given index.
    pub fn from_index(index: LineIndex) -> (number: LineNumber)
        requires
            index.0 < usize::MAX,
        ensures
            number.0 == index.0 + 1,
            number.wf(),
    {
        LineNumber(index.0 + 1)
    }
}

impl FromSpecImpl<LineNumber> for usize {
    open spec fn obeys_from_spec() -> bool {
        true
    }

    open spec fn from_spec(number: LineNumber) -> usize {
        number.0
    }
}

impl From<LineNumber> for usize {
    fn from(number: LineNumber) -> (raw: usize) {
        number.0
    }
}

impl AddSpecImpl<usize> for LineNumber {
    open spec fn obeys_add_spec() -> bool {
        true
    }

    open spec fn add_req(self, rhs: usize) -> bool {
        self.0 + rhs <= usize::MAX
    }

    open spec fn add_spec(self, rhs: usize) -> LineNumber {
        LineNumber((self.0 + rhs) as usize)
    }
}

impl core::ops::Add<usize> for LineNumber {
    type Output = LineNumber;

    fn add(self, rhs: usize) -> (number: LineNumber) {
        LineNumber(self.0 + rhs)
    }
}

impl SubSpecImpl<usize> for LineNumber {
    open spec fn obeys_sub_spec() -> bool {
        true
    }

    open spec fn sub_req(self, rhs: usize) -> bool {
        rhs < self.0
    }

    open spec fn sub_spec(self, rhs: usize) -> LineNumber {
        LineNumber((self.0 - rhs) as usize)
    }
}

impl core::ops::Sub<usize> for LineNumber {
    type Output = LineNumber;

    fn sub(self, rhs: usize) -> (number: LineNumber) {
        LineNumber(self.0 - rhs)
    }
}

// ----------------------------------------------------------------------------
// Numbers as text
// ----------------------------------------------------------------------------

/// The character for a single digit.
pub open spec fn digit(value: int) -> char {
    if value == 0 {
        '0'
    } else if value == 1 {
        '1'
    } else if value == 2 {
        '2'
    } else if value == 3 {
        '3'
    } else if value == 4 {
        '4'
    } else if value == 5 {
        '5'
    } else if value == 6 {
        '6'
    } else if value == 7 {
        '7'
    } else if value == 8 {
        '8'
    } else {
        '9'
    }
}

/// A number in decimal notation.
pub open spec fn decimal(number: nat) -> Seq<char>
    decreases number,
{
    if number < 10 {
        seq![digit(number as int)]
    } else {
        decimal(number / 10).push(digit((number % 10) as int))
    }
}

/// The text for a single digit.
fn digit_text(value: usize) -> (text: &'static str)
    requires
        value < 10,
    ensures
        text@ == seq![digit(value as int)],
{
    proof {
        reveal_strlit("0");
        reveal_strlit("1");
        reveal_strlit("2");
        reveal_strlit("3");
        reveal_strlit("4");
        reveal_strlit("5");
        reveal_strlit("6");
        reveal_strlit("7");
        reveal_strlit("8");
        reveal_strlit("9");
    }
    let text = if value == 0 {
        "0"
    } else if value == 1 {
        "1"
    } else if value == 2 {
        "2"
    } else if value == 3 {
        "3"
    } else if value == 4 {
        "4"
    } else if value == 5 {
        "5"
    } else if value == 6 {
        "6"
    } else if value == 7 {
        "7"
    } else if value == 8 {
        "8"
    } else {
        "9"
    };
    assert(text@ =~= seq![digit(value as int)]);
    text
}

/// A number in decimal notation.
pub fn decimal_text(number: usize) -> (text: String)
    ensures
        text@ == decimal(number as nat),
    decreases number,
{
    if number < 10 {
        String::from_str(digit_text(number))
    } else {
        let mut text = decimal_text(number / 10);
        text.append(digit_text(number % 10));
        proof {
            assert(text@ =~= decimal((number / 10) as nat).push(digit((number % 10) as int)));
        }
        text
    }
}

impl LineIndex {
    /// The index in decimal notation.
    pub fn to_string(&self) -> (text: String)
        ensures
            text@ == decimal(self.0 as nat),
    {
        decimal_text(self.0)
    }
}

impl LineNumber {
    /// The number in decimal notation.
    pub fn to_string(&self) -> (text: String)
        ensures
            text@ == decimal(self.0 as nat),
    {
        decimal_text(self.0)
    }
}

// ----------------------------------------------------------------------------
// Storages
// ----------------------------------------------------------------------------

/// One end of a range of lines.
#[derive(PartialEq, Eq, Debug)]
pub enum Bound<T> {
    /// The range has no end on this side.
    Unbound,
    /// The range ends with the given line.
    Inclusive(T),
    /// The range ends just before (or begins just after) the given line.
    Exclusive(T),
}

/// The index at which a range begins.
pub open spec fn range_start(start: Bound<LineIndex>) -> int {
    match start {
        Bound::Unbound => 0,
        Bound::Inclusive(index) => index.0 as int,
        Bound::Exclusive(index) => index.0 + 1,
    }
}

/// The index before which a range ends, in a storage of `stored` lines. A
/// range without an end reaches one line beyond the first line that is
/// missing, as far as the machine's integers go.
pub open spec fn range_end(start: Bound<LineIndex>, end: Bound<LineIndex>, stored: nat) -> int {
    match end {
        Bound::Unbound => {
            let missing = if range_start(start) >= stored {
                range_start(start)
            } else {
                stored as int
            };
            if missing < usize::MAX {
                missing + 1
            } else {
                usize::MAX as int
            }
        },
        Bound::Inclusive(index) => index.0 + 1,
        Bound::Exclusive(index) => index.0 as int,
    }
}

/// Something that holds lines and shows them by index.
pub trait LineStorage: Sized {
    /// What a line is.
    type Line;

    /// The number of lines that the storage holds. A storage that does not
    /// say how many it holds may hold any number.
    open spec fn stored(&self) -> nat {
        arbitrary()
    }

    /// Whether `line` is what the storage shows as its line `index`.
    open spec fn shows(&self, index: int, line: Self::Line) -> bool {
        arbitrary()
    }

    /// The line at `pos`, if the storage holds that many lines.
    fn view_line(&self, pos: LineIndex) -> (line: Option<Self::Line>)
        ensures
            pos.0 >= self.stored() ==> line is None,
            pos.0 < self.stored() ==> line is Some && self.shows(pos.0 as int, line->Some_0),
    ;

    /// The lines of a range, to be asked for one by one from either end.
    fn view(&self, start: Bound<LineIndex>, end: Bound<LineIndex>) -> (lines: LineStorageIterator<
        '_,
        Self,
    >)
        requires
            range_start(start) <= usize::MAX,
            end matches Bound::Inclusive(index) ==> index.0 < usize::MAX,
        ensures
            lines.storage == self,
            lines.start == range_start(start),
            lines.end == range_end(start, end, self.stored()),
    {
        let start_index: usize = match start {
            Bound::Unbound => 0,
            Bound::Inclusive(index) => index.0,
            Bound::Exclusive(index) => index.0 + 1,
        };
        let end_index: usize = match end {
            Bound::Unbound => {
                let mut end_index = start_index;
                let mut i = start_index;
                loop
                    invariant_except_break
                        start_index <= i <= end_index,
                        end_index == i,
                        i == start_index || i <= self.stored(),
                    invariant
                        start_index == range_start(start),
                        end is Unbound,
                    ensures
                        end_index == range_end(start, end, self.stored()),
                    decreases usize::MAX - i,
                {
                    if end_index == usize::MAX {
                        break ;
                    }
                    end_index += 1;
                    if self.view_line(LineIndex(i)).is_none() {
                        break ;
                    }
                    i += 1;
                }
                end_index
            },
            Bound::Inclusive(index) => index.0 + 1,
            Bound::Exclusive(index) => index.0,
        };
        LineStorageIterator { storage: self, start: start_index, end: end_index }
    }
}

/// The lines of a range of a storage, handed out one by one from either end.
pub struct LineStorageIterator<'a, L> {
    pub storage: &'a L,
    pub start: usize,
    pub end: usize,
}

impl<'a, L: LineStorage> LineStorageIterator<'a, L> {
    /// The lines from `start` up to, but without, `end`.
    pub fn new(storage: &'a L, start: usize, end: usize) -> (lines: Self)
        ensures
            lines.storage == storage,
            lines.start == start,
            lines.end == end,
    {
        LineStorageIterator { storage: storage, start: start, end: end }
    }

    /// The first line of the range that has not been handed out, with its
    /// index. The range shrinks by that line even if the storage does not
    /// hold it.
    pub fn next(&mut self) -> (item: Option<(LineIndex, L::Line)>)
        ensures
            final(self).storage == old(self).storage,
            final(self).end == old(self).end,
            old(self).start >= old(self).end ==> item is None && final(self).start == old(self).start,
            old(self).start < old(self).end ==> final(self).start == old(self).start + 1,
            old(self).start < old(self).end && old(self).start < old(self).storage.stored()
                ==> item is Some && item->Some_0.0 == LineIndex(old(self).start) && old(self).storage.shows(old(self).start as int, item->Some_0.1),
            old(self).start >= old(self).storage.stored() ==> item is None,
    {
        if self.start < self.end {
            let item_index = self.start;
            self.start += 1;
            match self.storage.view_line(LineIndex(item_index)) {
                Some(line) => Some((LineIndex(item_index), line)),
                None => None,
            }
        } else {
            None
        }
    }

    /// The last line of the range that has not been handed out, with its
    /// index. The range shrinks by that line even if the storage does not
    /// hold it.
    pub fn next_back(&mut self) -> (item: Option<(LineIndex, L::Line)>)
        ensures
            final(self).storage == old(self).storage,
            final(self).start == old(self).start,
            old(self).start >= old(self).end ==> item is None && final(self).end == old(self).end,
            old(self).start < old(self).end ==> final(self).end == old(self).end - 1,
            old(self).start < old(self).end && old(self).end - 1 < old(self).storage.stored()
                ==> item is Some && item->Some_0.0 == LineIndex((old(self).end - 1) as usize)
                && old(self).storage.shows(old(self).end - 1, item->Some_0.1),
            old(self).start < old(self).end && old(self).end - 1 >= old(self).storage.stored()
                ==> item is None,
    {
        if self.start < self.end {
            let item_index = self.end - 1;
            self.end -= 1;
            match self.storage.view_line(LineIndex(item_index)) {
                Some(line) => Some((LineIndex(item_index), line)),
                None => None,
            }
        } else {
            None
        }
    }
}

/// A storage that holds its lines in memory.
pub struct MemoryLineStorage<L> {
    pub lines: Vec<L>,
}

impl<L> MemoryLineStorage<L> {
    /// A storage without lines.
    pub fn new() -> (storage: Self)
        ensures
            storage.lines@ == Seq::<L>::empty(),
    {
        Self::with_lines(Vec::new())
    }

    /// A storage of the given lines.
    pub fn with_lines(lines: Vec<L>) -> (storage: Self)
        ensures
            storage.lines == lines,
    {
        MemoryLineStorage { lines: lines }
    }

    /// The number of lines.
    pub fn num_lines_stored(&self) -> (count: usize)
        ensures
            count == self.lines@.len(),
    {
        return self.lines.len();
    }
}

impl<L: Default> MemoryLineStorage<L> {
    /// The last line, to be written to. A storage without lines gets a first
    /// one, which is the default line.
    pub fn active_line_mut(&mut self) -> (line: &mut L)
        ensures
            old(self).lines@.len() > 0 ==> *line == old(self).lines@.last() && final(self).lines@
                == old(self).lines@.update(old(self).lines@.len() - 1, *final(line)),
            old(self).lines@.len() == 0 ==> call_ensures(L::default, (), *line) && final(self).lines@ == seq![*final(line)],
    {
        if self.lines.len() == 0 {
            self.lines.push(L::default());
        }
        let last = self.lines.len() - 1;
        &mut self.lines[last]
    }
}

impl<L: Clone> LineStorage for MemoryLineStorage<L> {
    type Line = L;

    open spec fn stored(&self) -> nat {
        self.lines@.len()
    }

    open spec fn shows(&self, index: int, line: L) -> bool {
        0 <= index < self.lines@.len() && cloned(self.lines@[index], line)
    }

    fn view_line(&self, pos: LineIndex) -> (line: Option<L>) {
        let upos: usize = pos.0;
        if upos < self.lines.len() {
            let line = self.lines[upos].clone();
            assert(cloned(self.lines@[upos as int], line));
            assert(self.shows(pos.0 as int, line));
            Some(line)
        } else {
            None
        }
    }
}

/// A storage of lines of text.
pub type StringLineStorage = MemoryLineStorage<String>;

/// The lines after a text is written behind them: every line feed of the
/// text begins a new line, every other character goes to the end of the last
/// line. Where there is no line yet, an empty one is the first.
pub open spec fn written(lines: Seq<Seq<char>>, text: Seq<char>) -> Seq<Seq<char>>
    decreases text.len(),
{
    if text.len() == 0 {
        if lines.len() == 0 {
            seq![Seq::<char>::empty()]
        } else {
            lines
        }
    } else {
        let before = written(lines, text.drop_last());
        if text.last() == '\n' {
            before.push(Seq::<char>::empty())
        } else {
            before.update(before.len() - 1, before.last().push(text.last()))
        }
    }
}

impl MemoryLineStorage<String> {
    /// Writes a text behind the lines that are stored.
    pub fn write_str(&mut self, s: &str)
        ensures
            texts(final(self).lines@) == written(texts(old(self).lines@), s@),
    {
        if self.lines.len() == 0 {
            self.lines.push(String::new());
        }
        proof {
            assert(s@.take(0) =~= Seq::<char>::empty());
            assert(texts(self.lines@) =~= written(texts(old(self).lines@), s@.take(0)));
        }
        let symbols = s.chars();
        for symbol in at: symbols
            invariant
                at.seq() == s@,
                self.lines@.len() > 0,
                texts(self.lines@) == written(texts(old(self).lines@), s@.take(at.index() as int)),
        {
            let ghost before = self.lines@;
            if symbol == '\n' {
                self.lines.push(String::new());
            } else {
                let last = self.lines.len() - 1;
                let text = string_of_char(symbol);
                self.lines[last].append(text.as_str());
            }
            proof {
                let longer = s@.take(at.index() + 1);
                assert(longer.drop_last() =~= s@.take(at.index() as int));
                assert(longer.last() == symbol);
                let expected = written(texts(old(self).lines@), longer);
                if symbol == '\n' {
                    assert(texts(self.lines@) =~= expected);
                } else {
                    let last = before.len() - 1;
                    assert(self.lines@[last]@ =~= before[last]@.push(symbol));
                    assert(texts(self.lines@) =~= expected);
                }
            }
        }
        proof {
            assert(s@.take(s@.len() as int) =~= s@);
        }
    }
}

// ----------------------------------------------------------------------------
// Finding lines in a stream of bytes
// ----------------------------------------------------------------------------

/// What to do after a read at the position that `LineSeeker` named.
#[derive(Clone, Copy, PartialEq, Eq, Debug)]
pub enum SeekStep {
    /// Nothing was read: there is no such line.
    Missing,
    /// What was read is the line that was asked for.
    Found,
    /// What was read is an earlier line: read on at the position that is
    /// named next.
    Further,
}

/// The positions at which the lines of a stream of bytes begin, as far as
/// they are known from the lines read so far.
pub struct LineSeeker {
    pub line_seek_positions: Vec<usize>,
}

impl LineSeeker {
    /// The beginning of the first line is always known.
    pub open spec fn wf(self) -> bool {
        self.line_seek_positions@.len() > 0
    }

    /// The position from which to read in order to get at line `index`: the
    /// beginning of that line if it is known, else that of the last line
    /// whose beginning is known.
    pub open spec fn position_for(self, index: int) -> usize {
        if index < self.line_seek_positions@.len() {
            self.line_seek_positions@[index]
        } else {
            self.line_seek_positions@.last()
        }
    }

    /// Nothing is known but that the first line begins at position zero.
    pub fn new() -> (seeker: LineSeeker)
        ensures
            seeker.wf(),
            seeker.line_seek_positions@ == seq![0usize],
    {
        let mut line_seek_positions: Vec<usize> = Vec::new();
        line_seek_positions.push(0);
        LineSeeker { line_seek_positions: line_seek_positions }
    }

    /// The position from which to read in order to get at line `index`.
    pub fn seek_position(&self, index: usize) -> (position: usize)
        requires
            self.wf(),
        ensures
            position == self.position_for(index as int),
    {
        let last = self.line_seek_positions.len() - 1;
        self.line_seek_positions[if index < last {
            index
        } else {
            last
        }]
    }

    /// Takes note of a read of `n_bytes` bytes, up to and with the next line
    /// feed, from the position that `seek_position` named for line `index`,
    /// and says how to go on. Where the line read is an earlier one than the
    /// line asked for, the beginning of the line behind it is now known.
    pub fn record(&mut self, index: usize, n_bytes: usize) -> (step: SeekStep)
        requires
            old(self).wf(),
            old(self).position_for(index as int) + n_bytes <= usize::MAX,
        ensures
            final(self).wf(),
            step == if n_bytes == 0 {
                SeekStep::Missing
            } else if index < old(self).line_seek_positions@.len() {
                SeekStep::Found
            } else {
                SeekStep::Further
            },
            step != SeekStep::Further ==> final(self).line_seek_positions@ == old(self).line_seek_positions@,
            step == SeekStep::Further ==> final(self).line_seek_positions@ == old(self).line_seek_positions@.push(
                (old(self).line_seek_positions@.last() + n_bytes) as usize,
            ),
    {
        if n_bytes == 0 {
            return SeekStep::Missing;
        }
        if index < self.line_seek_positions.len() {
            return SeekStep::Found;
        }
        let current_max_index = self.seek_position(index);
        self.line_seek_positions.push(current_max_index + n_bytes);
        SeekStep::Further
    }
}

/// A line as it was read, without the line feed at its end, if it has one.
pub fn strip_line_end(line: &str) -> (stripped: String)
    ensures
        stripped@ == if line@.len() > 0 && line@.last() == '\n' {
            line@.drop_last()
        } else {
            line@
        },
{
    let length = line.unicode_len();
    if length > 0 && line.get_char(length - 1) == '\n' {
        let kept = line.substring_char(0, length - 1);
        proof {
            assert(line@.subrange(0, length - 1) =~= line@.drop_last());
        }
        String::from_str(kept)
    } else {
        String::from_str(line)
    }
}

} // verus!
