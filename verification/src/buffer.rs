//! The text being edited and the reading of addressed commands against it.
use vstd::prelude::*;

use crate::commands::{command_name, first_char_or_space, unknown_command, unknown_command_message};
use crate::address_laws::{address_result, all_digits, decimal_value, lemma_line_number_alone};
use crate::lines::{
    file_lines, has_no_newline, join_lines, lemma_file_lines_hold_the_text, lemma_last_piece, split_newlines,
    string_views, text_to_lines, without_final_newline,
};
use crate::text::{is_white_space, lemma_trim_start_of_gap, skip_white_space, trim_start};
use crate::address::{
    i32_hi, i32_lo, initial_scan, is_address_char, lemma_scan_address_facts, resolved_in_buffer, scan_address, scan_from, scan_step, wrap_i32, AddressContext, LineRange, ScanStep,
};

verus! {

/// A command of the line editor, read from a command line that may start
/// with an address.
pub enum Operation {
    Quit,
    Error(&'static str),
    TogglePrompt,
    Insert,
    Append,
    Write(String),
    ToggleVerbose,
    Print(Option<CommandIndex>),
}

/// An [`Operation`] with its strings taken as their characters.
pub enum OperationView {
    Quit,
    Error(Seq<char>),
    TogglePrompt,
    Insert,
    Append,
    Write(Seq<char>),
    ToggleVerbose,
    Print(Option<CommandIndex>),
}

impl View for Operation {
    type V = OperationView;

    open spec fn view(&self) -> OperationView {
        match self {
            Operation::Quit => OperationView::Quit,
            Operation::Error(m) => OperationView::Error(m@),
            Operation::TogglePrompt => OperationView::TogglePrompt,
            Operation::Insert => OperationView::Insert,
            Operation::Append => OperationView::Append,
            Operation::Write(file) => OperationView::Write(file@),
            Operation::ToggleVerbose => OperationView::ToggleVerbose,
            Operation::Print(index) => OperationView::Print(*index),
        }
    }
}

/// The lines a command is given: a first line and, for a range, the last.
pub struct CommandIndex {
    pub begining: usize,
    pub end: Option<usize>,
}

impl From<(usize, Option<usize>)> for CommandIndex {
    fn from(value: (usize, Option<usize>)) -> (index: Self) {
        Self { begining: value.0, end: value.1 }
    }
}

impl vstd::std_specs::convert::FromSpecImpl<(usize, Option<usize>)> for CommandIndex {
    open spec fn obeys_from_spec() -> bool {
        true
    }

    open spec fn from_spec(v: (usize, Option<usize>)) -> Self {
        CommandIndex { begining: v.0, end: v.1 }
    }
}

/// The buffer that is being edited.
pub struct Buffer {
    /// The text of the file, one string per line.
    pub lines: Vec<String>,
    pub cursor: usize,
    pub modified: bool,
    pub filename: String,
    pub marker: usize,
}

/// The text cut at its newlines: the pieces that a newline ends, and where
/// the piece after the last newline starts.
fn split_text(input: &str) -> (cut: (Vec<String>, usize))
    ensures
        cut.1 <= input@.len(),
        split_newlines(input@) == string_views(cut.0@).push(input@.subrange(cut.1 as int, input@.len() as int)),
{
    let n = input.unicode_len();
    let mut lines: Vec<String> = Vec::new();
    let mut start: usize = 0;
    let mut pos: usize = 0;
    assert(input@.take(0) == Seq::<char>::empty());
    assert(string_views(lines@) == Seq::<Seq<char>>::empty());
    assert(input@.subrange(0, 0) == Seq::<char>::empty());
    for c in it: input.chars()
        invariant
            pos == it.index(),
            it.seq() == input@,
            n == input@.len(),
            start <= pos,
            split_newlines(input@.take(pos as int)) == string_views(lines@).push(
                input@.subrange(start as int, pos as int),
            ),
    {
        let ghost before = input@.take(pos as int);
        assert(input@.take(pos + 1).drop_last() == before);
        assert(input@.take(pos + 1).last() == c);
        if c == '\n' {
            let ghost views_before = string_views(lines@);
            let line = input.substring_char(start, pos).to_owned();
            lines.push(line);
            assert(string_views(lines@) == views_before.push(
                input@.subrange(start as int, pos as int),
            ));
            start = pos + 1;
            assert(input@.subrange(start as int, pos + 1) == Seq::<char>::empty());
        } else {
            assert(input@.subrange(start as int, pos + 1) == input@.subrange(
                start as int,
                pos as int,
            ).push(c));
        }
        pos = pos + 1;
    }
    assert(input@.take(n as int) == input@);
    (lines, start)
}

/// Splits the text into lines; what follows the last newline is dropped.
pub fn string_to_lines(input: &str) -> (lines: Vec<String>)
    ensures
        string_views(lines@) == text_to_lines(input@),
{
    let (lines, _) = split_text(input);
    let ghost views = string_views(lines@);
    assert(views.push(input@.subrange(0, 0)).drop_last() == views);
    lines
}

/// The lines of a file's text, its last line kept when no newline ends it.
fn file_text_lines(text: &str) -> (lines: Vec<String>)
    ensures
        string_views(lines@) == file_lines(text@),
{
    let (mut lines, start) = split_text(text);
    let n = text.unicode_len();
    let ghost views = string_views(lines@);
    let ghost tail = text@.subrange(start as int, n as int);
    proof {
        lemma_last_piece(text@);
        assert(split_newlines(text@).last() == tail);
    }
    if start < n {
        lines.push(text.substring_char(start, n).to_owned());
        assert(string_views(lines@) == views.push(tail));
        let ghost t = text@.push('\n');
        assert(t.drop_last() == text@);
        assert(split_newlines(t) == split_newlines(text@).push(Seq::<char>::empty()));
        assert(split_newlines(t).drop_last() == split_newlines(text@));
    } else {
        assert(views.push(tail).drop_last() == views);
    }
    lines
}

/// What `w` writes to: what follows the command character and the
/// character after it, without its leading white space.
pub open spec fn write_target(rest: Seq<char>) -> Seq<char> {
    if rest.len() >= 2 {
        trim_start(rest.skip(2))
    } else {
        Seq::<char>::empty()
    }
}

/// The address that a scan outcome gives.
pub open spec fn address_of(step: ScanStep) -> Result<Option<LineRange>, ()> {
    match step {
        ScanStep::Stop(r, _) => r,
        _ => Err(()),
    }
}

/// The part of the line `s` after the address that the scan outcome `step` read.
pub open spec fn command_of(step: ScanStep, s: Seq<char>) -> Seq<char> {
    match step {
        ScanStep::Stop(_, k) => s.skip(k),
        _ => s,
    }
}

/// The lines that `p` is given, from the address the line starts with.
pub open spec fn print_index(address: Result<Option<LineRange>, ()>) -> Option<CommandIndex> {
    match address {
        Ok(Some(r)) => Some(CommandIndex { begining: r.0, end: r.1 }),
        _ => None,
    }
}

/// Whether `rest` is a `w` command whose operand would start inside a
/// character: its operand is taken from the third byte on, which lies inside
/// the second character when that one is not ASCII.
pub open spec fn write_operand_splits_char(rest: Seq<char>) -> bool {
    command_name(rest) == 'w' && rest.len() >= 2 && (rest[1] as u32) >= 0x80
}

/// The command that the line `s` names by the first character after its
/// address: `p` is given the address, `w` the file it names.
pub open spec fn read_addressed_command(ctx: AddressContext, s: Seq<char>) -> OperationView {
    let step = scan_address(ctx, s);
    let rest = command_of(step, s);
    let name = command_name(rest);
    if name == 'q' || name == 'Q' {
        OperationView::Quit
    } else if name == 'P' {
        OperationView::TogglePrompt
    } else if name == 'i' {
        OperationView::Insert
    } else if name == 'a' {
        OperationView::Append
    } else if name == 'w' {
        OperationView::Write(write_target(rest))
    } else if name == 'H' {
        OperationView::ToggleVerbose
    } else if name == 'p' {
        OperationView::Print(print_index(address_of(step)))
    } else {
        OperationView::Error(unknown_command_message())
    }
}

/// A `w` with no address, followed by white space and then a file name,
/// writes to exactly that name: the white space is dropped and every
/// character of the name is kept.
pub proof fn lemma_write_names_the_file(ctx: AddressContext, gap: Seq<char>, name: Seq<char>)
    requires
        gap.len() > 0,
        forall|j: int| 0 <= j < gap.len() ==> is_white_space(#[trigger] gap[j]),
        name.len() == 0 || !is_white_space(name[0]),
    ensures
        read_addressed_command(ctx, seq!['w'] + gap + name) == OperationView::Write(name),
{
    let s = seq!['w'] + gap + name;
    assert(s[0] == 'w');
    assert(s.skip(0) == s);
    assert(s.skip(2) == gap.drop_first() + name);
    assert forall|j: int| 0 <= j < gap.drop_first().len() implies is_white_space(
        #[trigger] gap.drop_first()[j],
    ) by {
        assert(gap.drop_first()[j] == gap[j + 1]);
    }
    lemma_trim_start_of_gap(gap.drop_first(), name);
}

/// `p` after a line number prints that line when it is in the buffer, and
/// is given no line when the number is refused.
pub proof fn lemma_print_gets_its_line(ctx: AddressContext, digits: Seq<char>, rest: Seq<char>)
    requires
        digits.len() > 0,
        all_digits(digits),
        decimal_value(digits) <= i32_hi(),
        ctx.last <= i32_hi(),
    ensures
        read_addressed_command(ctx, digits + seq!['p'] + rest) == OperationView::Print(
            if 1 <= decimal_value(digits) <= ctx.last {
                Some(CommandIndex { begining: decimal_value(digits) as usize, end: None })
            } else {
                None
            },
        ),
{
    let command = seq!['p'] + rest;
    assert(digits + seq!['p'] + rest == digits + command);
    assert(command[0] == 'p');
    lemma_line_number_alone(ctx, digits, command);
    assert((digits + command).skip(digits.len() as int) == command);
}

/// Beyond this a line number is known not to fit in 32 bits.
const NUMBER_CAP: u64 = 0x8000_0000;

/// The line number held as its value capped at `NUMBER_CAP`.
pub open spec fn tracks_number(held: Option<u64>, number: Option<int>) -> bool {
    match (held, number) {
        (None, None) => true,
        (Some(h), Some(v)) => v >= 0 && h == (if v > 0x8000_0000 {
            0x8000_0000
        } else {
            v
        }),
        _ => false,
    }
}

/// `len as i32`, computed without a cast.
fn wrapped_len(len: usize) -> (r: i64)
    ensures
        r == wrap_i32(len as nat),
{
    let low = (len as u64) % 0x1_0000_0000u64;
    if low > 0x7fff_ffff {
        low as i64 - 0x1_0000_0000i64
    } else {
        low as i64
    }
}

fn cap_number(v: u64) -> (r: u64)
    ensures
        r == (if v > NUMBER_CAP {
            NUMBER_CAP
        } else {
            v
        }),
{
    if v > NUMBER_CAP {
        NUMBER_CAP
    } else {
        v
    }
}

impl Default for Buffer {
    fn default() -> (b: Self)
        ensures
            b.lines@.len() == 0,
            b.cursor == 0,
            !b.modified,
            b.filename@ == Seq::<char>::empty(),
            b.marker == 0,
    {
        Buffer { lines: Vec::new(), cursor: 0, modified: false, filename: String::new(), marker: 0 }
    }
}

impl Buffer {
    /// A buffer that holds the text `text` as lines, or no line when there is
    /// no text: the lines hold no newline and, joined with newlines, are the
    /// whole text but for a final newline. Its cursor and marker are at 0,
    /// it is unmodified and has no file name.
    pub fn new(text: Option<&str>) -> (b: Self)
        ensures
            string_views(b.lines@) == (match text {
                Some(t) => file_lines(t@),
                None => Seq::<Seq<char>>::empty(),
            }),
            text matches Some(t) ==> join_lines(string_views(b.lines@)) == without_final_newline(t@),
            forall|i: int|
                0 <= i < b.lines@.len() ==> has_no_newline(#[trigger] string_views(b.lines@)[i]),
            b.cursor == 0,
            !b.modified,
            b.filename@ == Seq::<char>::empty(),
            b.marker == 0,
    {
        let lines = match text {
            Some(t) => file_text_lines(t),
            None => Vec::new(),
        };
        proof {
            match text {
                Some(t) => lemma_file_lines_hold_the_text(t@),
                None => assert(string_views(lines@) == Seq::<Seq<char>>::empty()),
            }
        }
        Buffer { lines, cursor: 0, modified: false, filename: String::new(), marker: 0 }
    }

    /// The place the addresses of a command line are resolved in.
    pub open spec fn address_context(&self) -> AddressContext {
        AddressContext {
            cursor: self.cursor,
            last: self.lines@.len() as usize,
            marker: self.marker,
        }
    }

    /// The lines of the buffer as one text, a newline between each two lines.
    pub fn to_string(&self) -> (text: String)
        ensures
            text@ == join_lines(string_views(self.lines@)),
    {
        let mut text = String::new();
        let ghost views = string_views(self.lines@);
        let count = self.lines.len();
        assert(views.take(0) == Seq::<Seq<char>>::empty());
        for i in 0..count
            invariant
                count == self.lines@.len(),
                views == string_views(self.lines@),
                text@ == join_lines(views.take(i as int)),
        {
            assert(views.take(i + 1).drop_last() == views.take(i as int));
            proof {
                reveal_strlit("\n");
            }
            if i != 0 {
                text.append("\n");
            }
            text.append(self.lines[i].as_str());
            assert(views.take(i + 1).last() == self.lines@[i as int]@);
            assert(i == 0 ==> views.take(i + 1)[0] == self.lines@[i as int]@);
        }
        assert(views.take(count as int) == views);
        text
    }

    /// Reads the command that a command line names, after its address: the
    /// address goes to `p`, the rest of the line after `w` and the character
    /// that follows it, without leading white space, is the file to write.
    pub fn parse_command(&self, command: &str) -> (op: Operation)
        requires
            !(scan_address(self.address_context(), command@) is Overflow),
            !write_operand_splits_char(
                command_of(scan_address(self.address_context(), command@), command@),
            ),
        ensures
            op@ == read_addressed_command(self.address_context(), command@),
    {
        let (index, command) = self.parse_index(command);
        let name = first_char_or_space(command);
        if name == 'q' || name == 'Q' {
            Operation::Quit
        } else if name == 'P' {
            Operation::TogglePrompt
        } else if name == 'i' {
            Operation::Insert
        } else if name == 'a' {
            Operation::Append
        } else if name == 'w' {
            let n = command.unicode_len();
            if n >= 3 {
                Operation::Write(skip_white_space(command.substring_char(2, n)).to_owned())
            } else {
                assert(n == 2 ==> command@.skip(2) == Seq::<char>::empty());
                Operation::Write(String::new())
            }
        } else if name == 'H' {
            Operation::ToggleVerbose
        } else if name == 'p' {
            let lines = match index {
                Ok(Some(range)) => Some(CommandIndex::from(range)),
                _ => None,
            };
            Operation::Print(lines)
        } else {
            Operation::Error(unknown_command())
        }
    }

    /// Reads the address at the start of `ind`: the result of the scan and the
    /// rest of the line, where the command starts.
    pub fn parse_index<'a>(&self, ind: &'a str) -> (out: (Result<Option<LineRange>, ()>, &'a str))
        requires
            !(scan_address(self.address_context(), ind@) is Overflow),
        ensures
            match scan_address(self.address_context(), ind@) {
                ScanStep::Stop(r, k) => out.0 == r && 0 <= k <= ind@.len() && out.1@ == ind@.skip(k),
                _ => false,
            },
            address_result(scan_address(self.address_context(), ind@)) == Some(out.0),
            out.0 matches Ok(Some(r)) ==> resolved_in_buffer(self.address_context(), r),
            forall|j: int|
                0 <= j < ind@.len() - out.1@.len() ==> is_address_char(#[trigger] ind@[j]),
    {
        proof {
            lemma_scan_address_facts(self.address_context(), ind@);
        }
        let ghost ctx = self.address_context();
        let n = ind.unicode_len();
        let last = self.lines.len();
        let last_i32 = wrapped_len(last);
        let mut offset: i64 = 0;
        let mut number: Option<u64> = None;
        let mut first: Option<usize> = None;
        let mut marked = false;
        let mut whole: Option<LineRange> = None;
        let ghost mut st = initial_scan();
        let mut pos: usize = 0;
        for c in it: ind.chars()
            invariant
                pos == it.index(),
                it.seq() == ind@,
                n == ind@.len(),
                last == self.lines@.len(),
                last_i32 == wrap_i32(last as nat),
                ctx == self.address_context(),
                st.offset == offset as int,
                i32_lo() <= offset <= i32_hi(),
                st.first == first,
                st.marked == marked,
                st.whole == whole,
                tracks_number(number, st.number),
                scan_from(ctx, ind@, pos as nat, st) == scan_address(ctx, ind@),
                !(scan_address(ctx, ind@) is Overflow),
                scan_address(ctx, ind@) matches ScanStep::Stop(Ok(Some(r)), _) ==> resolved_in_buffer(
                    ctx,
                    r,
                ),
                scan_address(ctx, ind@) matches ScanStep::Stop(_, k) ==> forall|j: int|
                    0 <= j < k ==> is_address_char(#[trigger] ind@[j]),
        {
            assert(c == ind@[pos as int]);
            let ghost step = scan_step(ctx, st, c, pos as int);
            assert(scan_from(ctx, ind@, pos as nat, st) == match step {
                ScanStep::Next(next) => scan_from(ctx, ind@, (pos + 1) as nat, next),
                other => other,
            });
            if c == '.' || c == '$' {
                if number.is_some() {
                    return (Err(()), ind.substring_char(pos, n));
                }
                let v = if c == '.' {
                    self.cursor
                } else {
                    last
                };
                number = Some(cap_number(v as u64));
            } else if c >= '0' && c <= '9' {
                let d = (c as u32 - '0' as u32) as u64;
                number = Some(
                    match number {
                        Some(h) => if h >= NUMBER_CAP {
                            NUMBER_CAP
                        } else {
                            cap_number(h * 10 + d)
                        },
                        None => d,
                    },
                );
            } else if c == ',' || c == ';' {
                match number {
                    None => {
                        if offset != 0 {
                            return (Err(()), ind.substring_char(pos + 1, n));
                        }
                        whole = Some(
                            if c == ',' {
                                (self.cursor, Some(last))
                            } else {
                                (0, Some(last))
                            },
                        );
                    },
                    Some(h) => {
                        if -offset >= h as i64 {
                            return (Err(()), ind.substring_char(pos + 1, n));
                        }
                        let a = h as i64 + offset;
                        if a > last_i32 {
                            return (Err(()), ind.substring_char(pos + 1, n));
                        }
                        if c == ';' {
                            return (Ok(Some((a as usize, Some(last)))), ind.substring_char(pos + 1, n));
                        }
                        first = Some(a as usize);
                        number = None;
                        offset = 0;
                    },
                }
            } else if c == 'x' {
                marked = true;
            } else if c == '+' {
                offset = offset + 1;
            } else if c == '-' {
                offset = offset - 1;
            } else {
                let rest = ind.substring_char(pos, n);
                if whole.is_some() {
                    if number.is_some() || offset != 0 {
                        return (Err(()), rest);
                    }
                    return (Ok(whole), rest);
                }
                match number {
                    None => {
                        let r = match first {
                            Some(f) => Some((f, if marked { Some(self.marker) } else { None })),
                            None => None,
                        };
                        return (Ok(r), rest);
                    },
                    Some(h) => {
                        if marked {
                            return (Err(()), rest);
                        }
                        if -offset >= h as i64 {
                            return (Err(()), rest);
                        }
                        let a = h as i64 + offset;
                        if a > last_i32 {
                            return (Err(()), rest);
                        }
                        let a = a as usize;
                        match first {
                            Some(f) => {
                                if a < f {
                                    return (Err(()), rest);
                                }
                                return (Ok(Some((f, Some(a)))), rest);
                            },
                            None => {
                                return (Ok(Some((a, None))), rest);
                            },
                        }
                    },
                }
            }
            proof {
                st = match step {
                    ScanStep::Next(next) => next,
                    _ => st,
                };
            }
            pos = pos + 1;
        }
        assert(ind@.skip(0) == ind@);
        (Ok(None), ind)
    }
}

} // verus!
