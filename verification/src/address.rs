//! The address grammar of the editor: how the characters in front of a
//! command name a line or a range of lines of the buffer.
//!
//! Address characters:
//! - `.` the current line, `$` the last line, digits a line number;
//! - `+` and `-` shift the line that follows by one;
//! - `,` separates the two ends of a range; alone it names the range from the
//!   current line to the last line;
//! - `;` after a line closes a range that ends at the last line; alone it
//!   names the whole buffer;
//! - `x` takes the marked line as the end of a range.
//!
//! The scanner reads one character at a time; [`scan_step`] says what one
//! character does, [`scan_address`] what a whole line does. Line numbers and
//! shifts are 32-bit signed integers: a line whose number or shift does not
//! fit has no result, the [`ScanStep::Overflow`] outcome.
use vstd::prelude::*;

verus! {

/// What an address is resolved against.
pub struct AddressContext {
    /// the current line
    pub cursor: usize,
    /// the number of lines in the buffer, which is also the last line
    pub last: usize,
    /// the marked line
    pub marker: usize,
}

/// A resolved address: the first line and, for a range, the last one.
pub type LineRange = (usize, Option<usize>);

/// What the scanner has gathered before the next character.
pub struct ScanState {
    /// the sum of the `+` and `-` read since the last line number
    pub offset: int,
    /// the value of the line number being read, if one has started
    pub number: Option<int>,
    /// the first end of a range, once its separator has been read
    pub first: Option<usize>,
    /// whether an `x` has been read
    pub marked: bool,
    /// the range that a lone `,` or `;` named
    pub whole: Option<LineRange>,
}

/// What one character does to the scanner.
pub enum ScanStep {
    /// the scanner reads on, in this state
    Next(ScanState),
    /// the scanner stops with this result; the command starts at this position
    Stop(Result<Option<LineRange>, ()>, int),
    /// a line number does not fit in 32 bits: the scan has no result
    Overflow,
}

pub open spec fn i32_lo() -> int {
    -0x8000_0000
}

pub open spec fn i32_hi() -> int {
    0x7fff_ffff
}

/// The value of `n as i32`: the low 32 bits of `n`, read in two's complement.
pub open spec fn wrap_i32(n: nat) -> int {
    let low: int = (n % 0x1_0000_0000) as int;
    if low > 0x7fff_ffff {
        low - 0x1_0000_0000
    } else {
        low
    }
}

pub open spec fn is_digit(c: char) -> bool {
    '0' <= c && c <= '9'
}

pub open spec fn digit_value(c: char) -> int {
    (c as int) - ('0' as int)
}

/// The characters that the scanner reads as part of an address.
pub open spec fn is_address_char(c: char) -> bool {
    ||| c == '.'
    ||| c == '$'
    ||| is_digit(c)
    ||| c == ','
    ||| c == ';'
    ||| c == 'x'
    ||| c == '+'
    ||| c == '-'
}

pub open spec fn initial_scan() -> ScanState {
    ScanState { offset: 0, number: None, first: None, marked: false, whole: None }
}

/// A line number `v` shifted by `offset`, checked as a 32-bit computation
/// against the last line; `pos` is where the command starts on a refusal.
pub open spec fn checked_line(ctx: AddressContext, v: int, offset: int, pos: int) -> Option<
    ScanStep,
> {
    if v > i32_hi() || offset == i32_lo() {
        Some(ScanStep::Overflow)
    } else if -offset >= v {
        Some(ScanStep::Stop(Err(()), pos))
    } else if v + offset > i32_hi() {
        Some(ScanStep::Overflow)
    } else if v + offset > wrap_i32(ctx.last as nat) {
        Some(ScanStep::Stop(Err(()), pos))
    } else {
        None
    }
}

/// What a separator (`,` or `;`) at position `pos` does.
pub open spec fn scan_separator(ctx: AddressContext, st: ScanState, c: char, pos: int) -> ScanStep {
    match st.number {
        None => if st.offset != 0 {
            ScanStep::Stop(Err(()), pos + 1)
        } else {
            ScanStep::Next(
                ScanState {
                    whole: Some(
                        if c == ',' {
                            (ctx.cursor, Some(ctx.last))
                        } else {
                            (0usize, Some(ctx.last))
                        },
                    ),
                    ..st
                },
            )
        },
        Some(v) => match checked_line(ctx, v, st.offset, pos + 1) {
            Some(r) => r,
            None => if c == ';' {
                ScanStep::Stop(Ok(Some(((v + st.offset) as usize, Some(ctx.last)))), pos + 1)
            } else {
                ScanStep::Next(
                    ScanState {
                        offset: 0,
                        number: None,
                        first: Some((v + st.offset) as usize),
                        ..st
                    },
                )
            },
        },
    }
}

/// What the first character that is not an address character, at position
/// `pos`, does: the scanner stops there.
pub open spec fn scan_end(ctx: AddressContext, st: ScanState, pos: int) -> ScanStep {
    match st.whole {
        Some(w) => if st.number is Some || st.offset != 0 {
            ScanStep::Stop(Err(()), pos)
        } else {
            ScanStep::Stop(Ok(Some(w)), pos)
        },
        None => match st.number {
            None => ScanStep::Stop(
                Ok(
                    match st.first {
                        Some(f) => Some(
                            (
                                f,
                                if st.marked {
                                    Some(ctx.marker)
                                } else {
                                    None
                                },
                            ),
                        ),
                        None => None,
                    },
                ),
                pos,
            ),
            Some(v) => if st.marked {
                ScanStep::Stop(Err(()), pos)
            } else {
                match checked_line(ctx, v, st.offset, pos) {
                    Some(r) => r,
                    None => {
                        let a = (v + st.offset) as usize;
                        match st.first {
                            Some(f) => if a < f {
                                ScanStep::Stop(Err(()), pos)
                            } else {
                                ScanStep::Stop(Ok(Some((f, Some(a)))), pos)
                            },
                            None => ScanStep::Stop(Ok(Some((a, None))), pos),
                        }
                    },
                }
            },
        },
    }
}

/// What the character `c`, at position `pos`, does to the scanner in state `st`.
pub open spec fn scan_step(ctx: AddressContext, st: ScanState, c: char, pos: int) -> ScanStep {
    if c == '.' || c == '$' {
        if st.number is Some {
            ScanStep::Stop(Err(()), pos)
        } else {
            ScanStep::Next(
                ScanState {
                    number: Some(
                        if c == '.' {
                            ctx.cursor as int
                        } else {
                            ctx.last as int
                        },
                    ),
                    ..st
                },
            )
        }
    } else if is_digit(c) {
        ScanStep::Next(
            ScanState {
                number: Some(
                    match st.number {
                        Some(v) => v * 10 + digit_value(c),
                        None => digit_value(c),
                    },
                ),
                ..st
            },
        )
    } else if c == ',' || c == ';' {
        scan_separator(ctx, st, c, pos)
    } else if c == 'x' {
        ScanStep::Next(ScanState { marked: true, ..st })
    } else if c == '+' {
        if st.offset + 1 > i32_hi() {
            ScanStep::Overflow
        } else {
            ScanStep::Next(ScanState { offset: st.offset + 1, ..st })
        }
    } else if c == '-' {
        if st.offset - 1 < i32_lo() {
            ScanStep::Overflow
        } else {
            ScanStep::Next(ScanState { offset: st.offset - 1, ..st })
        }
    } else {
        scan_end(ctx, st, pos)
    }
}

/// The scan of `s` from position `i` in state `st`. A line made of address
/// characters only has no address: the result is `Ok(None)` and the command
/// is the whole line.
pub open spec fn scan_from(ctx: AddressContext, s: Seq<char>, i: nat, st: ScanState) -> ScanStep
    decreases s.len() - i,
{
    if i >= s.len() {
        ScanStep::Stop(Ok(None), 0)
    } else {
        match scan_step(ctx, st, s[i as int], i as int) {
            ScanStep::Next(next) => scan_from(ctx, s, i + 1, next),
            other => other,
        }
    }
}

/// The scan of a whole command line.
pub open spec fn scan_address(ctx: AddressContext, s: Seq<char>) -> ScanStep {
    scan_from(ctx, s, 0, initial_scan())
}

/// The facts about the scanner's state that every step keeps.
pub open spec fn scan_state_ok(ctx: AddressContext, st: ScanState) -> bool {
    &&& (st.first matches Some(f) ==> 1 <= f <= ctx.last)
    &&& (st.whole matches Some(w) ==> w == (ctx.cursor, Some(ctx.last)) || w == (
        0usize,
        Some(ctx.last),
    ))
}

/// Where a resolved address can point: a single line lies in the buffer; a
/// range runs forward inside the buffer, or ends at the last line (starting
/// at the current line, at line 0, or at a line of the buffer), or runs from
/// a line of the buffer to the marked line.
pub open spec fn resolved_in_buffer(ctx: AddressContext, r: LineRange) -> bool {
    match r {
        (a, None) => 1 <= a <= ctx.last,
        (a, Some(b)) => {
            ||| 1 <= a <= b <= ctx.last
            ||| b == ctx.last && (a == ctx.cursor || a == 0 || 1 <= a <= ctx.last)
            ||| 1 <= a <= ctx.last && b == ctx.marker
        },
    }
}

proof fn lemma_wrap_i32_le(n: nat)
    ensures
        wrap_i32(n) <= n,
{
}

proof fn lemma_scan_from_facts(ctx: AddressContext, s: Seq<char>, i: nat, st: ScanState)
    requires
        scan_state_ok(ctx, st),
        i <= s.len(),
        forall|j: int| 0 <= j < i ==> is_address_char(#[trigger] s[j]),
    ensures
        scan_from(ctx, s, i, st) matches ScanStep::Stop(Ok(Some(r)), _) ==> resolved_in_buffer(
            ctx,
            r,
        ),
        scan_from(ctx, s, i, st) matches ScanStep::Stop(_, k) ==> 0 <= k <= s.len() && forall|
            j: int,
        |
            0 <= j < k ==> is_address_char(#[trigger] s[j]),
    decreases s.len() - i,
{
    if i < s.len() {
        lemma_wrap_i32_le(ctx.last as nat);
        let c = s[i as int];
        match scan_step(ctx, st, c, i as int) {
            ScanStep::Next(next) => {
                assert(is_address_char(c));
                assert(scan_state_ok(ctx, next));
                lemma_scan_from_facts(ctx, s, i + 1, next);
            },
            _ => {},
        }
    }
}

/// Every address that a scan resolves points into the buffer as
/// [`resolved_in_buffer`] says, and the command that follows the address
/// starts after address characters only.
pub proof fn lemma_scan_address_facts(ctx: AddressContext, s: Seq<char>)
    ensures
        scan_address(ctx, s) matches ScanStep::Stop(Ok(Some(r)), _) ==> resolved_in_buffer(ctx, r),
        scan_address(ctx, s) matches ScanStep::Stop(_, k) ==> 0 <= k <= s.len() && forall|j: int|
            0 <= j < k ==> is_address_char(#[trigger] s[j]),
{
    lemma_scan_from_facts(ctx, s, 0, initial_scan());
}

} // verus!
