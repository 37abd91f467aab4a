//! The quest-code grammar and its two-way mapping onto bit positions.
//!
//! A code is either `"SSQ"` followed by a two-digit series (the per-series
//! special badge, task 0) or `"SQ"` followed by a two-digit series and a
//! two-digit task (tasks 1 to 99, of which only 1 to 8 are packed).  Each
//! series owns nine bit positions: position `9 * (series - 1) + task`.

use crate::numeral::{dec_of_nat, digit_char, digit_val, is_dec_digit};
use vstd::prelude::*;

verus! {

/// How many bit positions one series occupies.
pub const SERIES_SLOTS: usize = 9;

/// The largest task index that the packed form can carry.
pub const MAX_PACKED_TASK: usize = 8;

/// The largest series a two-digit code can name.
pub const MAX_SERIES: usize = 99;

/// Parses a quest code into `(series, task)` per the grammar; `None` where
/// the string is no quest code.
pub open spec fn parse_code(c: Seq<char>) -> Option<(nat, nat)> {
    if c.len() == 5 && c[0] == 'S' && c[1] == 'S' && c[2] == 'Q' && is_dec_digit(c[3])
        && is_dec_digit(c[4]) && digit_val(c[3]) * 10 + digit_val(c[4]) >= 1 {
        Some(((digit_val(c[3]) * 10 + digit_val(c[4])) as nat, 0 as nat))
    } else if c.len() == 6 && c[0] == 'S' && c[1] == 'Q' && is_dec_digit(c[2]) && is_dec_digit(c[3])
        && is_dec_digit(c[4]) && is_dec_digit(c[5]) && digit_val(c[2]) * 10 + digit_val(c[3]) >= 1
        && digit_val(c[4]) * 10 + digit_val(c[5]) >= 1 {
        Some(
            (
                (digit_val(c[2]) * 10 + digit_val(c[3])) as nat,
                (digit_val(c[4]) * 10 + digit_val(c[5])) as nat,
            ),
        )
    } else {
        None
    }
}

/// The bit position of a quest code, or `None` where the code is no quest
/// code or its task is beyond the packed range.
pub open spec fn code_index(c: Seq<char>) -> Option<nat> {
    match parse_code(c) {
        Some((series, task)) => if task <= 8 {
            Some((9 * (series - 1) + task) as nat)
        } else {
            None
        },
        None => None,
    }
}

/// A number in at least two digits, as the codes spell series and task.
pub open spec fn pad2(v: nat) -> Seq<char> {
    if v < 100 {
        seq![digit_char(v / 10), digit_char(v % 10)]
    } else {
        dec_of_nat(v)
    }
}

/// The quest-code name of bit position `i`.
pub open spec fn render_code(i: nat) -> Seq<char> {
    let series = i / 9 + 1;
    let task = i % 9;
    if task == 0 {
        seq!['S', 'S', 'Q'] + pad2(series)
    } else {
        seq!['S', 'Q'] + pad2(series) + pad2(task)
    }
}

/// The value of `c` as a decimal digit, or `None` if `c` is none.
fn dec_digit(c: char) -> (r: Option<u8>)
    ensures
        match r {
            Some(v) => is_dec_digit(c) && v as nat == digit_val(c) && v < 10,
            None => !is_dec_digit(c),
        },
{
    match crate::numeral::char_to_val(c) {
        Some(v) => if v < 10 {
            Some(v)
        } else {
            None
        },
        None => None,
    }
}

/// Parses a quest code into `(series, task)`; `None` where the string is no
/// quest code.
pub fn parse_code_str(code: &str) -> (r: Option<(u8, u8)>)
    ensures
        match r {
            Some(p) => parse_code(code@) == Some((p.0 as nat, p.1 as nat)),
            None => parse_code(code@) is None,
        },
{
    let n = code.unicode_len();
    if n == 5 {
        if code.get_char(0) == 'S' && code.get_char(1) == 'S' && code.get_char(2) == 'Q' {
            match (dec_digit(code.get_char(3)), dec_digit(code.get_char(4))) {
                (Some(a), Some(b)) => {
                    let series = a * 10 + b;
                    if series >= 1 {
                        Some((series, 0))
                    } else {
                        None
                    }
                },
                _ => None,
            }
        } else {
            None
        }
    } else if n == 6 {
        if code.get_char(0) == 'S' && code.get_char(1) == 'Q' {
            match (
                dec_digit(code.get_char(2)),
                dec_digit(code.get_char(3)),
                dec_digit(code.get_char(4)),
                dec_digit(code.get_char(5)),
            ) {
                (Some(a), Some(b), Some(x), Some(y)) => {
                    let series = a * 10 + b;
                    let task = x * 10 + y;
                    if series >= 1 && task >= 1 {
                        Some((series, task))
                    } else {
                        None
                    }
                },
                _ => None,
            }
        } else {
            None
        }
    } else {
        None
    }
}

/// Appends `v` in at least two digits.
fn push_pad2(out: &mut String, v: usize)
    ensures
        final(out)@ == old(out)@ + pad2(v as nat),
{
    if v < 100 {
        crate::numeral::push_digit(out, (v / 10) as u8);
        crate::numeral::push_digit(out, (v % 10) as u8);
        proof {
            assert(final(out)@ =~= old(out)@ + pad2(v as nat));
        }
    } else {
        let d = crate::numeral::dec_string_of_u64(v as u64);
        out.append(d.as_str());
    }
}

/// The quest-code name of bit position `i`.
pub fn render_code_str(i: usize) -> (r: String)
    ensures
        r@ == render_code(i as nat),
{
    let series = i / 9 + 1;
    let task = i % 9;
    let mut out = String::new();
    if task == 0 {
        crate::text::push_char(&mut out, 'S');
        crate::text::push_char(&mut out, 'S');
        crate::text::push_char(&mut out, 'Q');
        push_pad2(&mut out, series);
        proof {
            assert(out@ =~= render_code(i as nat));
        }
    } else {
        crate::text::push_char(&mut out, 'S');
        crate::text::push_char(&mut out, 'Q');
        push_pad2(&mut out, series);
        push_pad2(&mut out, task);
        proof {
            assert(out@ =~= render_code(i as nat));
        }
    }
    out
}

/// A decimal numeral always has at least one digit, and one of a value of
/// 100 or more has at least three.
proof fn lemma_dec_len(n: nat)
    ensures
        dec_of_nat(n).len() >= 1,
        n >= 100 ==> dec_of_nat(n).len() >= 3,
{
    if n >= 100 {
        assert(dec_of_nat(n) == dec_of_nat(n / 10).push(digit_char(n % 10)));
        assert(n / 10 >= 10);
        assert(dec_of_nat(n / 10) == dec_of_nat(n / 10 / 10).push(digit_char(n / 10 % 10)));
    }
}

/// Rendering the bit position of a valid packed code gives the code back.
pub proof fn lemma_render_of_parse(c: Seq<char>)
    requires
        code_index(c) is Some,
    ensures
        render_code(code_index(c)->Some_0) == c,
{
    let (series, task) = parse_code(c)->Some_0;
    let i = code_index(c)->Some_0;
    assert(i == 9 * (series - 1) + task);
    vstd::arithmetic::div_mod::lemma_fundamental_div_mod_converse(
        i as int,
        9,
        series - 1,
        task as int,
    );
    assert(i / 9 + 1 == series && i % 9 == task);
    assert(series <= 99);
    if task == 0 {
        assert(digit_char(series / 10) == c[3] && digit_char(series % 10) == c[4]) by {
            vstd::arithmetic::div_mod::lemma_fundamental_div_mod_converse(
                series as int,
                10,
                digit_val(c[3]) as int,
                digit_val(c[4]) as int,
            );
        }
        assert(render_code(i) =~= c);
    } else {
        assert(digit_char(series / 10) == c[2] && digit_char(series % 10) == c[3]) by {
            vstd::arithmetic::div_mod::lemma_fundamental_div_mod_converse(
                series as int,
                10,
                digit_val(c[2]) as int,
                digit_val(c[3]) as int,
            );
        }
        assert(digit_char(task / 10) == c[4] && digit_char(task % 10) == c[5]) by {
            vstd::arithmetic::div_mod::lemma_fundamental_div_mod_converse(
                task as int,
                10,
                digit_val(c[4]) as int,
                digit_val(c[5]) as int,
            );
        }
        assert(render_code(i) =~= c);
    }
}

/// The name of a bit position within the two-digit series range parses back
/// to that position.
pub proof fn lemma_parse_of_render(i: nat)
    requires
        i < 891,
    ensures
        code_index(render_code(i)) == Some(i),
{
    let series = i / 9 + 1;
    let task = i % 9;
    assert(1 <= series <= 99);
    assert(task <= 8);
    let c = render_code(i);
    if task == 0 {
        assert(c =~= seq!['S', 'S', 'Q', digit_char(series / 10), digit_char(series % 10)]);
        assert(parse_code(c) == Some((series as nat, 0 as nat)));
    } else {
        assert(c =~= seq![
            'S',
            'Q',
            digit_char(series / 10),
            digit_char(series % 10),
            digit_char(task / 10),
            digit_char(task % 10),
        ]);
        assert(parse_code(c) == Some((series as nat, task as nat)));
    }
    assert(9 * (series - 1) + task == i);
}

/// The name of a bit position beyond the two-digit series range is no quest
/// code at all.
pub proof fn lemma_render_large_invalid(i: nat)
    requires
        i >= 891,
    ensures
        parse_code(render_code(i)) is None,
{
    let series = i / 9 + 1;
    let task = i % 9;
    assert(series >= 100);
    lemma_dec_len(series);
    let c = render_code(i);
    if task == 0 {
        assert(c.len() >= 6);
        if c.len() == 6 {
            assert(c[1] == 'S');
        }
    } else {
        assert(c.len() >= 7);
    }
}

/// A name that decodes from any bit position never carries a task beyond the
/// packed range: where it parses as a quest code at all, its task is at most
/// eight.
pub proof fn lemma_rendered_task_bounded(i: nat)
    ensures
        parse_code(render_code(i)) matches Some(p) ==> p.1 <= 8,
{
    if i < 891 {
        lemma_parse_of_render(i);
    } else {
        lemma_render_large_invalid(i);
    }
}

} // verus!
