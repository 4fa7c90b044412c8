//! Terminal-facing logic that needs no terminal: parsing a typed selection
//! into menu indices, ANSI style codes, and the selection menu's navigation
//! and viewport arithmetic. The caller owns the actual screen and keyboard.

use vstd::prelude::*;

use crate::structs::MfError;

verus! {

/// ANSI escape codes for formatting.
#[derive(Clone, Copy, Debug, PartialEq, Eq, Structural)]
pub enum MFText {
    Bold,
    Underline,
    Reset,
}

impl MFText {
    /// The escape sequence that switches the style on or off.
    pub fn code(&self) -> (r: &'static str)
        ensures
            r@ == self.spec_code(),
    {
        match self {
            MFText::Bold => "\x1b[1m",
            MFText::Underline => "\x1b[4m",
            MFText::Reset => "\x1b[0m",
        }
    }

    pub open spec fn spec_code(&self) -> Seq<char> {
        match self {
            MFText::Bold => "\x1b[1m"@,
            MFText::Underline => "\x1b[4m"@,
            MFText::Reset => "\x1b[0m"@,
        }
    }
}

/// Is `c` a decimal digit?
pub open spec fn is_digit(c: char) -> bool {
    48 <= c as u32 && c as u32 <= 57
}

/// The numeric value of a digit character.
pub open spec fn digit_val(c: char) -> int {
    c as u32 - 48
}

/// Does `t` consist of decimal digits only?
pub open spec fn all_digits(t: Seq<char>) -> bool {
    forall|i: int| 0 <= i < t.len() ==> is_digit(#[trigger] t[i])
}

/// The decimal value of a digit sequence, most significant digit first.
pub open spec fn digits_value(t: Seq<char>) -> int
    decreases t.len(),
{
    if t.len() == 0 {
        0
    } else {
        digits_value(t.drop_last()) * 10 + digit_val(t.last())
    }
}

/// Splitting a character sequence at every occurrence of `sep`, empty pieces
/// kept: the empty input yields one empty piece, exactly as `str::split`.
pub open spec fn spec_split(s: Seq<char>, sep: char) -> Seq<Seq<char>>
    decreases s.len(),
{
    if s.len() == 0 {
        seq![Seq::empty()]
    } else if s[0] == sep {
        seq![Seq::empty()] + spec_split(s.drop_first(), sep)
    } else {
        let rest = spec_split(s.drop_first(), sep);
        seq![seq![s[0]] + rest[0]] + rest.drop_first()
    }
}

/// The menu index a token denotes: its decimal value less one. A token that
/// is empty, holds a non-digit, exceeds the machine's integer range or reads
/// zero denotes no index.
pub open spec fn spec_token_num(t: Seq<char>) -> Option<int> {
    if t.len() > 0 && all_digits(t) && 1 <= digits_value(t) <= usize::MAX {
        Some(digits_value(t) - 1)
    } else {
        None
    }
}

/// The indices of a token list; one bad token voids the whole selection.
pub open spec fn spec_nums(toks: Seq<Seq<char>>) -> Option<Seq<int>>
    decreases toks.len(),
{
    if toks.len() == 0 {
        Some(Seq::empty())
    } else {
        match spec_token_num(toks[0]) {
            None => None,
            Some(n) => match spec_nums(toks.drop_first()) {
                None => None,
                Some(r) => Some(seq![n] + r),
            },
        }
    }
}

/// What a typed selection denotes: the space-separated tokens, each read as
/// a one-based menu number and shifted to its zero-based index.
pub open spec fn spec_selection_numbers(s: Seq<char>) -> Option<Seq<int>> {
    spec_nums(spec_split(s, ' '))
}

/// A split's first piece runs to the first separator: with no separator
/// among the first `k` characters and a separator (or the end) at `k`, piece
/// zero is the first `k` characters and the remaining pieces split the rest.
proof fn lemma_split_head(u: Seq<char>, sep: char, k: int)
    requires
        0 <= k <= u.len(),
        forall|j: int| 0 <= j < k ==> u[j] != sep,
        k == u.len() || u[k] == sep,
    ensures
        spec_split(u, sep).len() >= 1,
        spec_split(u, sep)[0] == u.take(k),
        k < u.len() ==> spec_split(u, sep).drop_first() == spec_split(u.skip(k + 1), sep),
        k == u.len() ==> spec_split(u, sep).len() == 1,
    decreases u.len(),
{
    if u.len() == 0 {
        assert(u.take(0) =~= Seq::<char>::empty());
    } else if u[0] == sep {
        assert(k == 0);
        assert(u.take(0) =~= Seq::<char>::empty());
        assert(u.skip(1) =~= u.drop_first());
        assert(spec_split(u, sep).drop_first() =~= spec_split(u.drop_first(), sep));
    } else {
        assert(k >= 1);
        let rest = spec_split(u.drop_first(), sep);
        assert forall|j: int| 0 <= j < k - 1 implies u.drop_first()[j] != sep by {
            assert(u[j + 1] != sep);
        }
        if k < u.len() {
            assert(u.drop_first()[k - 1] == u[k]);
        }
        lemma_split_head(u.drop_first(), sep, k - 1);
        assert(rest[0] == u.drop_first().take(k - 1));
        assert(seq![u[0]] + u.drop_first().take(k - 1) =~= u.take(k));
        assert(spec_split(u, sep)[0] == u.take(k));
        if k < u.len() {
            assert(u.drop_first().skip(k) =~= u.skip(k + 1));
            assert(spec_split(u, sep).drop_first() =~= rest.drop_first());
        }
    }
}

/// A digit sequence has a nonnegative decimal value.
proof fn lemma_digits_value_nonneg(t: Seq<char>)
    requires
        all_digits(t),
    ensures
        digits_value(t) >= 0,
    decreases t.len(),
{
    if t.len() > 0 {
        assert(is_digit(t[t.len() - 1]));
        assert forall|i: int| 0 <= i < t.drop_last().len() implies is_digit(
            #[trigger] t.drop_last()[i],
        ) by {
            assert(is_digit(t[i]));
        }
        lemma_digits_value_nonneg(t.drop_last());
    }
}

/// Appending digit characters never lowers a nonnegative decimal value.
proof fn lemma_digits_value_mono(t: Seq<char>, j: int)
    requires
        0 <= j <= t.len(),
        forall|k: int| j <= k < t.len() ==> is_digit(#[trigger] t[k]),
        digits_value(t.take(j)) >= 0,
    ensures
        digits_value(t) >= digits_value(t.take(j)),
    decreases t.len() - j,
{
    if j < t.len() {
        assert(t.take(j + 1).drop_last() =~= t.take(j));
        assert(t.take(j + 1).last() == t[j]);
        assert(digits_value(t.take(j + 1)) == digits_value(t.take(j)) * 10 + digit_val(t[j]));
        assert(is_digit(t[j]));
        lemma_digits_value_mono(t, j + 1);
    } else {
        assert(t.take(j) =~= t);
    }
}

/// Reads a typed selection such as `1 3 4` into zero-based menu indices.
/// One malformed token — empty, non-numeric, zero or beyond the machine's
/// range — voids the whole selection, which comes back empty rather than as
/// an error.
pub fn parse_to_int(string: String) -> (r: Result<Vec<usize>, MfError>)
    ensures
        r is Ok,
        match spec_selection_numbers(string@) {
            Some(ns) => r.unwrap()@.len() == ns.len() && forall|i: int|
                0 <= i < ns.len() ==> r.unwrap()@[i] as int == ns[i],
            None => r.unwrap()@.len() == 0,
        },
{
    let s = string.as_str();
    let len = s.unicode_len();
    let ghost whole = string@;
    let mut out: Vec<usize> = Vec::new();
    let mut p: usize = 0;
    proof {
        assert(whole.skip(0) =~= whole);
    }
    loop
        invariant_except_break
            0 <= p <= len,
            len == whole.len(),
            whole == string@,
            whole == s@,
            spec_nums(spec_split(whole.skip(p as int), ' ')) is Some ==> spec_nums(
                spec_split(whole, ' '),
            ) == Some(
                out@.map_values(|u: usize| u as int) + spec_nums(
                    spec_split(whole.skip(p as int), ' '),
                ).unwrap(),
            ),
            spec_nums(spec_split(whole.skip(p as int), ' ')) is None ==> spec_nums(
                spec_split(whole, ' '),
            ) is None,
        ensures
            match spec_selection_numbers(whole) {
                Some(ns) => out@.len() == ns.len() && forall|i: int|
                    0 <= i < ns.len() ==> out@[i] as int == ns[i],
                None => out@.len() == 0,
            },
        decreases len - p,
    {
        let ghost tail = whole.skip(p as int);
        let mut e: usize = p;
        let mut v: usize = 0;
        let mut ok = true;
        proof {
            assert(tail.take(0) =~= Seq::<char>::empty());
        }
        loop
            invariant_except_break
                p <= e <= len,
                len == whole.len(),
                whole == s@,
                tail == whole.skip(p as int),
                forall|j: int| p <= j < e ==> whole[j] != ' ',
                ok ==> v as int == digits_value(tail.take(e - p)) && all_digits(
                    tail.take(e - p),
                ),
                !ok ==> (exists|j: int| p <= j < e && !is_digit(#[trigger] whole[j]))
                    || (exists|j: int|
                    0 < j <= e - p && all_digits(#[trigger] tail.take(j)) && digits_value(
                        tail.take(j),
                    ) > usize::MAX),
            ensures
                p <= e <= len,
                forall|j: int| p <= j < e ==> whole[j] != ' ',
                e == len || whole[e as int] == ' ',
                ok ==> v as int == digits_value(tail.take(e - p)) && all_digits(
                    tail.take(e - p),
                ),
                !ok ==> (exists|j: int| p <= j < e && !is_digit(#[trigger] whole[j]))
                    || (exists|j: int|
                    0 < j <= e - p && all_digits(#[trigger] tail.take(j)) && digits_value(
                        tail.take(j),
                    ) > usize::MAX),
            decreases len - e,
        {
            if e == len {
                break ;
            }
            let c = s.get_char(e);
            if c == ' ' {
                break ;
            }
            proof {
                assert(tail.take(e - p + 1).drop_last() =~= tail.take(e - p));
                assert(tail.take(e - p + 1).last() == whole[e as int]);
                assert(digits_value(tail.take(e - p + 1)) == digits_value(tail.take(e - p)) * 10
                    + digit_val(whole[e as int]));
            }
            let cu = c as u32;
            if cu < 48 || cu > 57 {
                proof {
                    assert(!is_digit(whole[e as int]));
                }
                ok = false;
            } else if ok {
                let d = (cu - 48) as usize;
                if v > (usize::MAX - d) / 10 {
                    proof {
                        assert(v as int * 10 + d > usize::MAX) by {
                            assert(v as int >= (usize::MAX - d) / 10 + 1);
                        }
                        assert(all_digits(tail.take(e - p + 1))) by {
                            assert(forall|i: int|
                                0 <= i < e - p ==> is_digit(#[trigger] tail.take(e - p)[i]));
                            assert forall|i: int| 0 <= i < e - p + 1 implies is_digit(
                                #[trigger] tail.take(e - p + 1)[i],
                            ) by {
                                if i < e - p {
                                    assert(tail.take(e - p + 1)[i] == tail.take(e - p)[i]);
                                } else {
                                    assert(tail.take(e - p + 1)[i] == whole[e as int]);
                                }
                            }
                        }
                        assert(digits_value(tail.take(e - p + 1)) > usize::MAX);
                    }
                    ok = false;
                } else {
                    proof {
                        assert(v as int * 10 + d <= usize::MAX) by {
                            assert(v as int <= (usize::MAX - d) / 10);
                            assert(v as int * 10 <= ((usize::MAX - d) / 10) * 10);
                            assert(((usize::MAX - d) / 10) * 10 <= usize::MAX - d);
                        }
                        assert(all_digits(tail.take(e - p + 1))) by {
                            assert(forall|i: int|
                                0 <= i < e - p ==> is_digit(#[trigger] tail.take(e - p)[i]));
                            assert forall|i: int| 0 <= i < e - p + 1 implies is_digit(
                                #[trigger] tail.take(e - p + 1)[i],
                            ) by {
                                if i < e - p {
                                    assert(tail.take(e - p + 1)[i] == tail.take(e - p)[i]);
                                } else {
                                    assert(tail.take(e - p + 1)[i] == whole[e as int]);
                                }
                            }
                        }
                    }
                    v = v * 10 + d;
                }
            }
            e = e + 1;
        }
        // the token runs from p (inclusive) to e (exclusive)
        let ghost tok = tail.take(e - p);
        proof {
            assert forall|j: int| 0 <= j < e - p implies tail[j] != ' ' by {
                assert(whole[p + j] != ' ');
            }
            if e < len {
                assert(tail[e - p] == whole[e as int]);
            }
            lemma_split_head(tail, ' ', e - p);
        }
        if e == p || !ok || v == 0 {
            proof {
                assert(spec_token_num(tok) is None) by {
                    if e == p {
                        assert(tok.len() == 0);
                    } else if !ok {
                        if exists|j: int| p <= j < e && !is_digit(#[trigger] whole[j]) {
                            let j = choose|j: int| p <= j < e && !is_digit(#[trigger] whole[j]);
                            assert(tok[j - p] == whole[j]);
                            assert(!all_digits(tok));
                        } else {
                            let j = choose|j: int|
                                0 < j <= e - p && all_digits(#[trigger] tail.take(j))
                                    && digits_value(tail.take(j)) > usize::MAX;
                            if all_digits(tok) {
                                assert(tok.take(j) =~= tail.take(j));
                                lemma_digits_value_nonneg(tail.take(j));
                                lemma_digits_value_mono(tok, j);
                                assert(digits_value(tok) > usize::MAX);
                            }
                        }
                    } else {
                        assert(digits_value(tok) == 0);
                    }
                }
                assert(spec_nums(spec_split(tail, ' ')) is None);
            }
            return Ok(Vec::new());
        }
        proof {
            assert(tok.len() > 0);
            assert(spec_token_num(tok) == Some(v as int - 1));
        }
        let ghost out_before = out@;
        out.push(v - 1);
        if e == len {
            proof {
                assert(spec_split(tail, ' ').len() == 1);
                assert(spec_split(tail, ' ').drop_first() =~= Seq::<Seq<char>>::empty());
                assert(spec_nums(Seq::<Seq<char>>::empty()) == Some(Seq::<int>::empty()));
                assert(seq![v as int - 1] + Seq::<int>::empty() =~= seq![v as int - 1]);
                assert(spec_nums(spec_split(tail, ' ')) == Some(seq![v as int - 1]));
                assert(out_before.map_values(|u: usize| u as int) + seq![v as int - 1]
                    =~= out@.map_values(|u: usize| u as int));
            }
            break ;
        }
        proof {
            let rest_toks = spec_split(whole.skip(e + 1), ' ');
            assert(spec_split(tail, ' ').drop_first() == rest_toks) by {
                assert(tail.skip(e - p + 1) =~= whole.skip(e + 1));
            }
            match spec_nums(rest_toks) {
                None => {
                    assert(spec_nums(spec_split(tail, ' ')) is None);
                },
                Some(r) => {
                    assert(spec_nums(spec_split(tail, ' ')) == Some(seq![v as int - 1] + r));
                    assert(out_before.map_values(|u: usize| u as int) + (seq![v as int - 1] + r)
                        =~= out@.map_values(|u: usize| u as int) + r);
                },
            }
        }
        p = e + 1;
    }
    Ok(out)
}

/// Rejects a selection that names an entry beyond the offered range.
pub fn check_selection(numbers: &Vec<usize>, total: usize) -> (r: Result<(), MfError>)
    ensures
        r is Ok <==> (forall|i: int| 0 <= i < numbers@.len() ==> #[trigger] numbers@[i] < total),
        r is Err ==> r == Err::<(), MfError>(MfError::OutOfRange),
{
    let mut i: usize = 0;
    while i < numbers.len()
        invariant
            0 <= i <= numbers@.len(),
            forall|k: int| 0 <= k < i ==> #[trigger] numbers@[k] < total,
        decreases numbers@.len() - i,
    {
        if numbers[i] >= total {
            return Err(MfError::OutOfRange);
        }
        i = i + 1;
    }
    Ok(())
}

/// A key the selection menu reacts to.
#[derive(Clone, Copy, Debug, PartialEq, Eq, Structural)]
pub enum SelectKey {
    Up,
    Down,
    Enter,
    Cancel,
    Other,
}

/// What one key does to the menu: move the cursor, accept the highlighted
/// entry, abort, or nothing.
#[derive(Clone, Copy, Debug, PartialEq, Eq, Structural)]
pub enum SelectStep {
    Move(usize),
    Accept(usize),
    Abort,
    Stay,
}

/// One step of the selection menu: the arrow keys move the cursor with
/// wrap-around, enter accepts the highlighted entry, escape aborts, and any
/// other key changes nothing. The caller loops, drawing between steps.
pub fn select_step(index: usize, total: usize, key: SelectKey) -> (r: SelectStep)
    requires
        0 < total,
        index < total,
    ensures
        key == SelectKey::Up ==> (r matches SelectStep::Move(i) && i < total && i as int == (index
            + total - 1) as int % total as int),
        key == SelectKey::Down ==> (r matches SelectStep::Move(i) && i < total && i as int == (
        index + 1) as int % total as int),
        key == SelectKey::Enter ==> r == SelectStep::Accept(index),
        key == SelectKey::Cancel ==> r == SelectStep::Abort,
        key == SelectKey::Other ==> r == SelectStep::Stay,
{
    match key {
        SelectKey::Up => {
            let i = if index == 0 {
                total - 1
            } else {
                index - 1
            };
            proof {
                if index == 0 {
                    assert((index + total - 1) as int % total as int == total - 1) by (nonlinear_arith)
                        requires 0 < total && index == 0;
                } else {
                    assert((index + total - 1) as int % total as int == index - 1) by (nonlinear_arith)
                        requires 0 < index < total;
                }
            }
            SelectStep::Move(i)
        },
        SelectKey::Down => {
            let i = if index + 1 == total {
                0
            } else {
                index + 1
            };
            proof {
                if index + 1 == total {
                    assert((index + 1) as int % total as int == 0) by (nonlinear_arith)
                        requires 0 < total && index + 1 == total;
                } else {
                    assert((index + 1) as int % total as int == index + 1) by (nonlinear_arith)
                        requires 0 <= index && index + 1 < total;
                }
            }
            SelectStep::Move(i)
        },
        SelectKey::Enter => SelectStep::Accept(index),
        SelectKey::Cancel => SelectStep::Abort,
        SelectKey::Other => SelectStep::Stay,
    }
}

/// Where the visible window of the menu starts: the cursor is centred where
/// the list allows it, and the window never runs past either end.
pub open spec fn spec_window(index: int, total: int, viewport: int) -> int {
    if total <= viewport {
        0
    } else if index < viewport / 2 {
        0
    } else if index > total - (viewport / 2 + 1) {
        total - viewport
    } else {
        index - viewport / 2
    }
}

/// Computes the first visible entry of the menu's viewport. The highlighted
/// entry always lies inside the window.
pub fn select_window(index: usize, total: usize, viewport: usize) -> (start: usize)
    requires
        index < total,
        0 < viewport,
    ensures
        start as int == spec_window(index as int, total as int, viewport as int),
        start <= index < start + viewport,
        viewport < total ==> start + viewport <= total,
{
    if total <= viewport {
        0
    } else if index < viewport / 2 {
        0
    } else if index > total - (viewport / 2 + 1) {
        total - viewport
    } else {
        index - viewport / 2
    }
}

/// Fits a menu label into a column: a label over the width is cut and marked
/// with an ellipsis; a narrower one passes through whole.
pub fn truncate_label(label: &str, max_width: usize) -> (r: String)
    ensures
        label@.len() <= max_width ==> r@ == label@,
        label@.len() > max_width ==> r@ == label@.take(
            if max_width >= 3 {
                max_width - 3
            } else {
                0
            },
        ) + "..."@,
{
    let len = label.unicode_len();
    if len <= max_width {
        String::from_str(label)
    } else {
        let keep: usize = if max_width >= 3 {
            max_width - 3
        } else {
            0
        };
        let mut s = String::from_str(label.substring_char(0, keep));
        s.append("...");
        proof {
            assert(label@.subrange(0, keep as int) =~= label@.take(keep as int));
        }
        s
    }
}

} // verus!
