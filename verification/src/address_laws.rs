//! What the address grammar promises: how line numbers, signs and the
//! one-character addresses read, stated over the scan of whole lines.
use vstd::prelude::*;

use crate::address::{
    digit_value, i32_hi, i32_lo, initial_scan, is_address_char, is_digit, scan_address, scan_from,
    scan_step, wrap_i32, AddressContext, LineRange, ScanState, ScanStep,
};

verus! {

/// The value of a string of decimal digits.
pub open spec fn decimal_value(digits: Seq<char>) -> int
    decreases digits.len(),
{
    if digits.len() == 0 {
        0
    } else {
        decimal_value(digits.drop_last()) * 10 + digit_value(digits.last())
    }
}

pub open spec fn all_digits(s: Seq<char>) -> bool {
    forall|j: int| 0 <= j < s.len() ==> is_digit(#[trigger] s[j])
}

proof fn lemma_wrap_i32_small(n: nat)
    requires
        n <= i32_hi(),
    ensures
        wrap_i32(n) == n,
{
}

/// Reading the digits `s[i..j]` from a state with no line number started
/// leaves the scanner with their value as the line number.
proof fn lemma_scan_digits(ctx: AddressContext, s: Seq<char>, i: nat, j: nat, st: ScanState)
    requires
        i < j <= s.len(),
        st.number is None,
        all_digits(s.subrange(i as int, j as int)),
    ensures
        scan_from(ctx, s, i, st) == scan_from(
            ctx,
            s,
            j,
            ScanState { number: Some(decimal_value(s.subrange(i as int, j as int))), ..st },
        ),
    decreases j - i,
{
    let digits = s.subrange(i as int, j as int);
    reveal_with_fuel(scan_from, 2);
    if j == i + 1 {
        assert(digits.drop_last() == Seq::<char>::empty());
        assert(is_digit(digits[0]));
        assert(digits.last() == s[i as int]);
        assert(decimal_value(Seq::<char>::empty()) == 0);
        assert(decimal_value(digits) == digit_value(s[i as int]));
        assert(scan_from(ctx, s, i, st) == scan_from(
            ctx,
            s,
            j,
            ScanState { number: Some(decimal_value(digits)), ..st },
        ));
    } else {
        let front = s.subrange(i as int, j - 1);
        assert(front == digits.drop_last());
        assert(all_digits(front)) by {
            assert forall|k: int| 0 <= k < front.len() implies is_digit(#[trigger] front[k]) by {
                assert(front[k] == digits[k]);
            }
        }
        lemma_scan_digits(ctx, s, i, (j - 1) as nat, st);
        assert(digits.last() == s[j - 1]);
        assert(is_digit(digits[digits.len() - 1]));
        let before = ScanState { number: Some(decimal_value(front)), ..st };
        assert(decimal_value(digits) == decimal_value(front) * 10 + digit_value(s[j - 1]));
        assert(scan_step(ctx, before, s[j - 1], j - 1) == ScanStep::Next(
            ScanState { number: Some(decimal_value(digits)), ..st },
        ));
        assert(scan_from(ctx, s, (j - 1) as nat, before) == scan_from(
            ctx,
            s,
            j,
            ScanState { number: Some(decimal_value(digits)), ..st },
        ));
    }
}

/// `N;` names the range from line `N` to the last line, as `N,$` does: for
/// a line number `N` within the buffer, both read as that range and leave
/// the same command after them.
pub proof fn lemma_semicolon_is_comma_dollar(ctx: AddressContext, digits: Seq<char>, command: Seq<char>)
    requires
        digits.len() > 0,
        all_digits(digits),
        1 <= decimal_value(digits) <= ctx.last,
        ctx.last <= i32_hi(),
        command.len() > 0,
        !is_address_char(command[0]),
    ensures
        scan_address(ctx, digits + seq![';'] + command) == ScanStep::Stop(
            Ok(Some((decimal_value(digits) as usize, Some(ctx.last)))),
            digits.len() + 1int,
        ),
        scan_address(ctx, digits + seq![',', '$'] + command) == ScanStep::Stop(
            Ok(Some((decimal_value(digits) as usize, Some(ctx.last)))),
            digits.len() + 2int,
        ),
        (digits + seq![';'] + command).skip(digits.len() + 1int) == command,
        (digits + seq![',', '$'] + command).skip(digits.len() + 2int) == command,
{
    let n: nat = digits.len();
    let m: int = n as int;
    let value = decimal_value(digits);
    lemma_wrap_i32_small(ctx.last as nat);
    let with_semicolon = digits + seq![';'] + command;
    assert(with_semicolon.subrange(0, n as int) == digits);
    lemma_scan_digits(ctx, with_semicolon, 0, n, initial_scan());
    assert(with_semicolon[n as int] == ';');
    let with_range = digits + seq![',', '$'] + command;
    assert(with_range.subrange(0, n as int) == digits);
    lemma_scan_digits(ctx, with_range, 0, n, initial_scan());
    assert(with_range[n as int] == ',');
    assert(with_range[m + 1] == '$');
    assert(with_range[m + 2] == command[0]);
    let after_comma = ScanState {
        offset: 0,
        number: None,
        first: Some(value as usize),
        marked: false,
        whole: None,
    };
    let after_dollar = ScanState { number: Some(ctx.last as int), ..after_comma };
    assert(scan_from(ctx, with_range, (n + 1) as nat, after_comma) == scan_from(
        ctx,
        with_range,
        (n + 2) as nat,
        after_dollar,
    ));
    assert(with_semicolon.skip(m + 1) == command);
    assert(with_range.skip(m + 2) == command);
}

/// The single-character addresses: `.` names the current line and `$` the
/// last one; a lone `,` names the range from the current line to the last
/// one, a lone `;` the range from line 0 to the last one.
pub proof fn lemma_single_character_addresses(ctx: AddressContext, command: Seq<char>)
    requires
        ctx.last <= i32_hi(),
        command.len() > 0,
        !is_address_char(command[0]),
    ensures
        1 <= ctx.cursor <= ctx.last ==> scan_address(ctx, seq!['.'] + command) == ScanStep::Stop(
            Ok(Some((ctx.cursor, None))),
            1,
        ),
        1 <= ctx.last ==> scan_address(ctx, seq!['$'] + command) == ScanStep::Stop(
            Ok(Some((ctx.last, None))),
            1,
        ),
        scan_address(ctx, seq![','] + command) == ScanStep::Stop(
            Ok(Some((ctx.cursor, Some(ctx.last)))),
            1,
        ),
        scan_address(ctx, seq![';'] + command) == ScanStep::Stop(Ok(Some((0usize, Some(ctx.last)))), 1),
{
    lemma_wrap_i32_small(ctx.last as nat);
    reveal_with_fuel(scan_from, 3);
    assert((seq!['.'] + command)[0] == '.');
    assert((seq!['$'] + command)[0] == '$');
    assert((seq![','] + command)[0] == ',');
    assert((seq![';'] + command)[0] == ';');
    assert((seq!['.'] + command)[1] == command[0]);
    assert((seq!['$'] + command)[1] == command[0]);
    assert((seq![','] + command)[1] == command[0]);
    assert((seq![';'] + command)[1] == command[0]);
}


proof fn lemma_decimal_value_nonneg(digits: Seq<char>)
    requires
        all_digits(digits),
    ensures
        decimal_value(digits) >= 0,
    decreases digits.len(),
{
    if digits.len() > 0 {
        let front = digits.drop_last();
        assert(all_digits(front)) by {
            assert forall|j: int| 0 <= j < front.len() implies is_digit(#[trigger] front[j]) by {
                assert(front[j] == digits[j]);
            }
        }
        lemma_decimal_value_nonneg(front);
        assert(is_digit(digits[digits.len() - 1]));
    }
}

/// The address a scan outcome resolves, the position of the command left
/// aside; `None` for a line whose numbers do not fit.
pub open spec fn address_result(step: ScanStep) -> Option<Result<Option<LineRange>, ()>> {
    match step {
        ScanStep::Stop(r, _) => Some(r),
        _ => None,
    }
}

/// A scan step with the position of the command left aside.
pub open spec fn without_position(step: ScanStep) -> ScanStep {
    match step {
        ScanStep::Stop(r, _) => ScanStep::Stop(r, 0),
        other => other,
    }
}

/// The scan of positions `i` up to `n` of `s` from state `st`: the state it
/// reaches at `n`, or how it stopped before.
pub open spec fn scan_until(ctx: AddressContext, s: Seq<char>, i: nat, n: nat, st: ScanState) -> ScanStep
    decreases n - i,
{
    if i >= n || i >= s.len() {
        ScanStep::Next(st)
    } else {
        match scan_step(ctx, st, s[i as int], i as int) {
            ScanStep::Next(next) => scan_until(ctx, s, i + 1, n, next),
            other => other,
        }
    }
}

/// The sum of the shifts a string of signs makes: `+1` for each `+`, `-1`
/// for each `-`.
pub open spec fn sign_sum(q: Seq<char>) -> int
    decreases q.len(),
{
    if q.len() == 0 {
        0
    } else {
        sign_sum(q.drop_last()) + if q.last() == '+' {
            1int
        } else {
            -1int
        }
    }
}

pub open spec fn all_signs(q: Seq<char>) -> bool {
    forall|j: int| 0 <= j < q.len() ==> (#[trigger] q[j] == '+' || q[j] == '-')
}

proof fn lemma_scan_in_two(ctx: AddressContext, s: Seq<char>, i: nat, n: nat, st: ScanState)
    requires
        i <= n <= s.len(),
    ensures
        scan_from(ctx, s, i, st) == match scan_until(ctx, s, i, n, st) {
            ScanStep::Next(m) => scan_from(ctx, s, n, m),
            other => other,
        },
    decreases n - i,
{
    if i < n {
        match scan_step(ctx, st, s[i as int], i as int) {
            ScanStep::Next(next) => lemma_scan_in_two(ctx, s, i + 1, n, next),
            _ => {},
        }
    }
}

proof fn lemma_common_prefix(
    ctx: AddressContext,
    s1: Seq<char>,
    s2: Seq<char>,
    i: nat,
    n: nat,
    st: ScanState,
)
    requires
        i <= n <= s1.len(),
        n <= s2.len(),
        s1.take(n as int) == s2.take(n as int),
    ensures
        scan_until(ctx, s1, i, n, st) == scan_until(ctx, s2, i, n, st),
    decreases n - i,
{
    if i < n {
        assert(s1[i as int] == s1.take(n as int)[i as int]);
        assert(s2[i as int] == s2.take(n as int)[i as int]);
        match scan_step(ctx, st, s1[i as int], i as int) {
            ScanStep::Next(next) => lemma_common_prefix(ctx, s1, s2, i + 1, n, next),
            _ => {},
        }
    }
}

proof fn lemma_step_position(ctx: AddressContext, st: ScanState, c: char, p1: int, p2: int)
    ensures
        without_position(scan_step(ctx, st, c, p1)) == without_position(scan_step(ctx, st, c, p2)),
{
}

/// Scans of the same characters from the same state resolve the same
/// address, wherever those characters stand.
proof fn lemma_same_rest(
    ctx: AddressContext,
    s1: Seq<char>,
    i1: nat,
    s2: Seq<char>,
    i2: nat,
    st: ScanState,
)
    requires
        i1 <= s1.len(),
        i2 <= s2.len(),
        s1.skip(i1 as int) == s2.skip(i2 as int),
    ensures
        address_result(scan_from(ctx, s1, i1, st)) == address_result(scan_from(ctx, s2, i2, st)),
    decreases s1.len() - i1,
{
    if i1 < s1.len() {
        assert(s1[i1 as int] == s1.skip(i1 as int)[0]);
        assert(s2.skip(i2 as int).len() > 0);
        assert(s2[i2 as int] == s2.skip(i2 as int)[0]);
        let c = s1[i1 as int];
        lemma_step_position(ctx, st, c, i1 as int, i2 as int);
        match scan_step(ctx, st, c, i1 as int) {
            ScanStep::Next(next) => {
                assert(s1.skip(i1 + 1int) == s1.skip(i1 as int).drop_first());
                assert(s2.skip(i2 + 1int) == s2.skip(i2 as int).drop_first());
                lemma_same_rest(ctx, s1, i1 + 1, s2, i2 + 1, next);
            },
            _ => {},
        }
    } else {
        assert(s2.skip(i2 as int).len() == 0);
    }
}

/// After a separator that the scanner reads on from, no line number has
/// started and no shift is pending.
proof fn lemma_after_separator(ctx: AddressContext, s: Seq<char>, i: nat, n: nat, st: ScanState)
    requires
        i < n <= s.len(),
        s[n - 1] == ',' || s[n - 1] == ';',
    ensures
        scan_until(ctx, s, i, n, st) matches ScanStep::Next(m) ==> m.number is None && m.offset == 0,
    decreases n - i,
{
    if i + 1 < n {
        match scan_step(ctx, st, s[i as int], i as int) {
            ScanStep::Next(next) => lemma_after_separator(ctx, s, i + 1, n, next),
            _ => {},
        }
    } else {
        reveal_with_fuel(scan_until, 2);
        assert(s[i as int] == ',' || s[i as int] == ';');
    }
}

/// The state the scanner is in after a prefix that is empty or ends with a
/// comma, when it reads on: no line number started, no shift pending.
proof fn lemma_prefix_state(ctx: AddressContext, p: Seq<char>, s1: Seq<char>, s2: Seq<char>)
    requires
        p.len() == 0 || p.last() == ',',
        p.len() <= s1.len(),
        p.len() <= s2.len(),
        s1.take(p.len() as int) == p,
        s2.take(p.len() as int) == p,
    ensures
        scan_address(ctx, s1) == match scan_until(ctx, p, 0, p.len(), initial_scan()) {
            ScanStep::Next(m) => scan_from(ctx, s1, p.len(), m),
            other => other,
        },
        scan_address(ctx, s2) == match scan_until(ctx, p, 0, p.len(), initial_scan()) {
            ScanStep::Next(m) => scan_from(ctx, s2, p.len(), m),
            other => other,
        },
        scan_until(ctx, p, 0, p.len(), initial_scan()) matches ScanStep::Next(m) ==> m.number is None
            && m.offset == 0,
{
    let n = p.len();
    assert(p.take(n as int) == p);
    lemma_scan_in_two(ctx, s1, 0, n, initial_scan());
    lemma_scan_in_two(ctx, s2, 0, n, initial_scan());
    lemma_common_prefix(ctx, s1, p, 0, n, initial_scan());
    lemma_common_prefix(ctx, s2, p, 0, n, initial_scan());
    if n > 0 {
        assert(p[n - 1] == p.last());
        lemma_after_separator(ctx, p, 0, n, initial_scan());
    }
}

/// At the start of a line or after a comma, `$` reads as the number of lines
/// and `.` as the current line: the same line written in decimal digits
/// resolves to the same address, whatever follows.
pub proof fn lemma_dollar_and_dot_read_as_numbers(
    ctx: AddressContext,
    p: Seq<char>,
    c: char,
    digits: Seq<char>,
    s: Seq<char>,
)
    requires
        p.len() == 0 || p.last() == ',',
        c == '$' || c == '.',
        digits.len() > 0,
        all_digits(digits),
        decimal_value(digits) == if c == '$' {
            ctx.last as int
        } else {
            ctx.cursor as int
        },
    ensures
        address_result(scan_address(ctx, p + seq![c] + s)) == address_result(
            scan_address(ctx, p + digits + s),
        ),
{
    let n = p.len();
    let s1 = p + seq![c] + s;
    let s2 = p + digits + s;
    assert(s1.take(n as int) == p);
    assert(s2.take(n as int) == p);
    lemma_prefix_state(ctx, p, s1, s2);
    match scan_until(ctx, p, 0, n, initial_scan()) {
        ScanStep::Next(m) => {
            assert(s1[n as int] == c);
            let read = ScanState { number: Some(decimal_value(digits)), ..m };
            assert(scan_from(ctx, s1, n, m) == scan_from(ctx, s1, n + 1, read));
            let end = n + digits.len();
            assert(s2.subrange(n as int, end as int) == digits);
            lemma_scan_digits(ctx, s2, n, end, m);
            assert(s1.skip(n + 1int) == s);
            assert(s2.skip(end as int) == s);
            lemma_same_rest(ctx, s1, n + 1, s2, end, read);
        },
        _ => {},
    }
}

proof fn lemma_sign_sum_bound(q: Seq<char>)
    ensures
        -(q.len() as int) <= sign_sum(q) <= q.len(),
    decreases q.len(),
{
    if q.len() > 0 {
        lemma_sign_sum_bound(q.drop_last());
    }
}

/// Reading the signs `s[i..j]` adds their sum to the pending shift.
proof fn lemma_scan_signs(ctx: AddressContext, s: Seq<char>, i: nat, j: nat, st: ScanState)
    requires
        i <= j <= s.len(),
        all_signs(s.subrange(i as int, j as int)),
        i32_lo() <= st.offset - (j - i),
        st.offset + (j - i) <= i32_hi(),
    ensures
        scan_from(ctx, s, i, st) == scan_from(
            ctx,
            s,
            j,
            ScanState { offset: st.offset + sign_sum(s.subrange(i as int, j as int)), ..st },
        ),
    decreases j - i,
{
    let signs = s.subrange(i as int, j as int);
    if j == i {
        assert(signs.len() == 0);
        assert(ScanState { offset: st.offset + 0, ..st } == st);
    } else {
        let front = s.subrange(i as int, j - 1);
        assert(front == signs.drop_last());
        assert(all_signs(front)) by {
            assert forall|k: int| 0 <= k < front.len() implies (#[trigger] front[k] == '+' || front[k]
                == '-') by {
                assert(front[k] == signs[k]);
            }
        }
        lemma_scan_signs(ctx, s, i, (j - 1) as nat, st);
        lemma_sign_sum_bound(front);
        assert(signs.last() == s[j - 1]);
        assert(signs[signs.len() - 1] == '+' || signs[signs.len() - 1] == '-');
        let before = ScanState { offset: st.offset + sign_sum(front), ..st };
        assert(sign_sum(signs) == sign_sum(front) + if s[j - 1] == '+' {
            1int
        } else {
            -1int
        });
        assert(scan_step(ctx, before, s[j - 1], j - 1) == ScanStep::Next(
            ScanState { offset: st.offset + sign_sum(signs), ..st },
        ));
        assert(scan_from(ctx, s, (j - 1) as nat, before) == scan_from(
            ctx,
            s,
            j,
            ScanState { offset: st.offset + sign_sum(signs), ..st },
        ));
    }
}

/// A line number `v` shifted by `d` reads, at a character that ends it, as
/// the line number `v + d` with no shift.
proof fn lemma_shifted_step(
    ctx: AddressContext,
    m: ScanState,
    v: int,
    d: int,
    c: char,
    p1: int,
    p2: int,
)
    requires
        m.number is None,
        0 <= v <= i32_hi(),
        i32_lo() < d,
        v + d <= i32_hi(),
        0 <= v + d,
        !is_digit(c),
        c != '.' && c != '$' && c != 'x' && c != '+' && c != '-',
    ensures
        without_position(scan_step(ctx, ScanState { offset: d, number: Some(v), ..m }, c, p1))
            == without_position(
            scan_step(ctx, ScanState { offset: 0, number: Some(v + d), ..m }, c, p2),
        ),
{
}

/// A line number `v` shifted below line 1 is refused at the character that
/// ends it.
proof fn lemma_shifted_below_one(ctx: AddressContext, m: ScanState, v: int, d: int, c: char, p: int)
    requires
        0 <= v <= i32_hi(),
        i32_lo() < d,
        v + d < 1,
        !is_digit(c),
        c != '.' && c != '$' && c != 'x' && c != '+' && c != '-',
    ensures
        address_result(scan_step(ctx, ScanState { offset: d, number: Some(v), ..m }, c, p)) == Some(
            Err::<Option<LineRange>, ()>(()),
        ),
{
}

/// At the start of a line or after a comma, signs before a line number shift
/// it: `+` one line down, `-` one line up. The shifted number reads as the
/// line number it comes to, written in decimal digits; one that comes below
/// line 1 is refused.
pub proof fn lemma_signs_shift_line_number(
    ctx: AddressContext,
    p: Seq<char>,
    q: Seq<char>,
    digits: Seq<char>,
    s: Seq<char>,
    shifted: Seq<char>,
)
    requires
        p.len() == 0 || p.last() == ',',
        all_signs(q),
        q.len() <= i32_hi(),
        digits.len() > 0,
        all_digits(digits),
        decimal_value(digits) <= i32_hi(),
        decimal_value(digits) + sign_sum(q) <= i32_hi(),
        s.len() > 0,
        !is_digit(s[0]),
        s[0] != '.' && s[0] != '$' && s[0] != 'x' && s[0] != '+' && s[0] != '-',
    ensures
        shifted.len() > 0 && all_digits(shifted) && decimal_value(shifted) == decimal_value(digits)
            + sign_sum(q) ==> address_result(scan_address(ctx, p + q + digits + s))
            == address_result(scan_address(ctx, p + shifted + s)),
        decimal_value(digits) + sign_sum(q) < 1 && scan_until(ctx, p, 0, p.len(), initial_scan()) is Next
            ==> address_result(scan_address(ctx, p + q + digits + s)) == Some(
            Err::<Option<LineRange>, ()>(()),
        ),
{
    let n = p.len();
    let v = decimal_value(digits);
    let d = sign_sum(q);
    lemma_sign_sum_bound(q);
    lemma_decimal_value_nonneg(digits);
    let s1 = p + q + digits + s;
    let s2 = p + shifted + s;
    assert(s1.take(n as int) == p);
    assert(s2.take(n as int) == p);
    lemma_prefix_state(ctx, p, s1, s2);
    match scan_until(ctx, p, 0, n, initial_scan()) {
        ScanStep::Next(m) => {
            let after_signs = n + q.len();
            assert(s1.subrange(n as int, after_signs as int) == q);
            lemma_scan_signs(ctx, s1, n, after_signs, m);
            let signed = ScanState { offset: d, ..m };
            assert(ScanState { offset: m.offset + d, ..m } == signed);
            let pos1 = after_signs + digits.len();
            assert(s1.subrange(after_signs as int, pos1 as int) == digits);
            lemma_scan_digits(ctx, s1, after_signs, pos1, signed);
            let a = ScanState { offset: d, number: Some(v), ..m };
            assert(ScanState { number: Some(v), ..signed } == a);
            assert(s1[pos1 as int] == s[0]);
            assert(s1.skip(pos1 + 1int) == s.drop_first());
            if v + d < 1 {
                lemma_shifted_below_one(ctx, m, v, d, s[0], pos1 as int);
            }
            if shifted.len() > 0 && all_digits(shifted) && decimal_value(shifted) == v + d {
                let pos2 = n + shifted.len();
                assert(s2.subrange(n as int, pos2 as int) == shifted);
                lemma_scan_digits(ctx, s2, n, pos2, m);
                let b = ScanState { offset: 0, number: Some(v + d), ..m };
                assert(ScanState { number: Some(v + d), ..m } == b);
                assert(s2[pos2 as int] == s[0]);
                assert(s2.skip(pos2 + 1int) == s.drop_first());
                lemma_decimal_value_nonneg(shifted);
                lemma_shifted_step(ctx, m, v, d, s[0], pos1 as int, pos2 as int);
                match scan_step(ctx, a, s[0], pos1 as int) {
                    ScanStep::Next(next) => {
                        lemma_same_rest(ctx, s1, pos1 + 1, s2, pos2 + 1, next);
                    },
                    _ => {},
                }
            }
        },
        _ => {},
    }
}

/// A line number followed by a comma and then the command names that line
/// alone: the range has no end unless an `x` gives the marked line as its
/// end.
pub proof fn lemma_open_range_is_one_line(ctx: AddressContext, digits: Seq<char>, command: Seq<char>)
    requires
        digits.len() > 0,
        all_digits(digits),
        1 <= decimal_value(digits) <= ctx.last,
        ctx.last <= i32_hi(),
        command.len() > 0,
        !is_address_char(command[0]),
    ensures
        scan_address(ctx, digits + seq![','] + command) == ScanStep::Stop(
            Ok(Some((decimal_value(digits) as usize, None))),
            digits.len() + 1int,
        ),
        scan_address(ctx, digits + seq![',', 'x'] + command) == ScanStep::Stop(
            Ok(Some((decimal_value(digits) as usize, Some(ctx.marker)))),
            digits.len() + 2int,
        ),
{
    let n: nat = digits.len();
    let m: int = n as int;
    let value = decimal_value(digits);
    lemma_wrap_i32_small(ctx.last as nat);
    let after_comma = ScanState {
        offset: 0,
        number: None,
        first: Some(value as usize),
        marked: false,
        whole: None,
    };
    let open = digits + seq![','] + command;
    assert(open.subrange(0, m) == digits);
    lemma_scan_digits(ctx, open, 0, n, initial_scan());
    assert(open[m] == ',');
    assert(open[m + 1] == command[0]);
    assert(scan_from(ctx, open, n, ScanState { number: Some(value), ..initial_scan() }) == scan_from(
        ctx,
        open,
        (n + 1) as nat,
        after_comma,
    ));
    let marked = digits + seq![',', 'x'] + command;
    assert(marked.subrange(0, m) == digits);
    lemma_scan_digits(ctx, marked, 0, n, initial_scan());
    assert(marked[m] == ',');
    assert(marked[m + 1] == 'x');
    assert(marked[m + 2] == command[0]);
    assert(scan_from(ctx, marked, n, ScanState { number: Some(value), ..initial_scan() })
        == scan_from(ctx, marked, (n + 1) as nat, after_comma));
    assert(scan_from(ctx, marked, (n + 1) as nat, after_comma) == scan_from(
        ctx,
        marked,
        (n + 2) as nat,
        ScanState { marked: true, ..after_comma },
    ));
}

/// A line number alone names that line when it is in the buffer, and is
/// refused when it is 0 or past the last line.
pub proof fn lemma_line_number_alone(ctx: AddressContext, digits: Seq<char>, command: Seq<char>)
    requires
        digits.len() > 0,
        all_digits(digits),
        decimal_value(digits) <= i32_hi(),
        ctx.last <= i32_hi(),
        command.len() > 0,
        !is_address_char(command[0]),
    ensures
        scan_address(ctx, digits + command) == ScanStep::Stop(
            if 1 <= decimal_value(digits) <= ctx.last {
                Ok(Some((decimal_value(digits) as usize, None)))
            } else {
                Err::<Option<LineRange>, ()>(())
            },
            digits.len() as int,
        ),
{
    let n: nat = digits.len();
    let s = digits + command;
    lemma_wrap_i32_small(ctx.last as nat);
    lemma_decimal_value_nonneg(digits);
    assert(s.subrange(0, n as int) == digits);
    lemma_scan_digits(ctx, s, 0, n, initial_scan());
    assert(s[n as int] == command[0]);
}

/// Two line numbers around a comma name the range between them when both
/// are in the buffer and the first is not after the second; otherwise the
/// address is refused.
pub proof fn lemma_range_of_two_numbers(
    ctx: AddressContext,
    first: Seq<char>,
    second: Seq<char>,
    command: Seq<char>,
)
    requires
        first.len() > 0,
        all_digits(first),
        1 <= decimal_value(first) <= ctx.last,
        second.len() > 0,
        all_digits(second),
        decimal_value(second) <= i32_hi(),
        ctx.last <= i32_hi(),
        command.len() > 0,
        !is_address_char(command[0]),
    ensures
        address_result(scan_address(ctx, first + seq![','] + second + command)) == Some(
            if decimal_value(first) <= decimal_value(second) <= ctx.last {
                Ok(Some((decimal_value(first) as usize, Some(decimal_value(second) as usize))))
            } else {
                Err::<Option<LineRange>, ()>(())
            },
        ),
{
    let n1: nat = first.len();
    let n2: nat = second.len();
    let a = decimal_value(first);
    let s = first + seq![','] + second + command;
    lemma_wrap_i32_small(ctx.last as nat);
    lemma_decimal_value_nonneg(second);
    assert(s.subrange(0, n1 as int) == first);
    lemma_scan_digits(ctx, s, 0, n1, initial_scan());
    assert(s[n1 as int] == ',');
    let after_comma = ScanState {
        offset: 0,
        number: None,
        first: Some(a as usize),
        marked: false,
        whole: None,
    };
    assert(scan_from(ctx, s, n1, ScanState { number: Some(a), ..initial_scan() }) == scan_from(
        ctx,
        s,
        (n1 + 1) as nat,
        after_comma,
    ));
    let end = n1 + 1 + n2;
    assert(s.subrange(n1 + 1int, end as int) == second);
    lemma_scan_digits(ctx, s, (n1 + 1) as nat, end as nat, after_comma);
    assert(s[end as int] == command[0]);
}

} // verus!
