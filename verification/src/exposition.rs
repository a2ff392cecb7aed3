//! Parser for the plain-text metric exposition the firehose monitor polls.
//!
//! The body is a sequence of `name value` lines.  A line without a space, a
//! line whose value is not an unsigned decimal number, and a line naming an
//! unknown metric are all skipped silently; a metric that never appears stays
//! at zero; when a metric appears twice, the later line wins.

use vstd::prelude::*;
use vstd::string::StrSliceExecFns;

use crate::firehose::FirehoseCount;
use crate::firehose::METRIC_COUNT;
use crate::text::spec_digits_value;
use crate::text::spec_is_digit;
use crate::text::lemma_digits_extend;

verus! {

/// The index a metric name parses to, `None` for an unrecognized name.
pub open spec fn spec_metric_index(name: Seq<char>) -> Option<int> {
    if name == "atproto_firehose_ops_total"@ {
        Option::Some(0int)
    } else if name == "atproto_firehose_ops_2048"@ {
        Option::Some(1int)
    } else if name == "atproto_firehose_ops_5leafsync"@ {
        Option::Some(2int)
    } else if name == "atproto_firehose_ops_anisota"@ {
        Option::Some(3int)
    } else if name == "atproto_firehose_ops_atfile"@ {
        Option::Some(4int)
    } else if name == "atproto_firehose_ops_bluesky"@ {
        Option::Some(5int)
    } else if name == "atproto_firehose_ops_bluebadge"@ {
        Option::Some(6int)
    } else if name == "atproto_firehose_ops_bookhive"@ {
        Option::Some(7int)
    } else if name == "atproto_firehose_ops_bookmark"@ {
        Option::Some(8int)
    } else if name == "atproto_firehose_ops_bot_void"@ {
        Option::Some(9int)
    } else if name == "atproto_firehose_ops_cabildoabierto"@ {
        Option::Some(10int)
    } else if name == "atproto_firehose_ops_flashes"@ {
        Option::Some(11int)
    } else if name == "atproto_firehose_ops_flushes"@ {
        Option::Some(12int)
    } else if name == "atproto_firehose_ops_frontpage"@ {
        Option::Some(13int)
    } else if name == "atproto_firehose_ops_germ"@ {
        Option::Some(14int)
    } else if name == "atproto_firehose_ops_grain"@ {
        Option::Some(15int)
    } else if name == "atproto_firehose_ops_gridsky"@ {
        Option::Some(16int)
    } else if name == "atproto_firehose_ops_leaflet"@ {
        Option::Some(17int)
    } else if name == "atproto_firehose_ops_linkat"@ {
        Option::Some(18int)
    } else if name == "atproto_firehose_ops_picosky"@ {
        Option::Some(19int)
    } else if name == "atproto_firehose_ops_pinksky"@ {
        Option::Some(20int)
    } else if name == "atproto_firehose_ops_popsky"@ {
        Option::Some(21int)
    } else if name == "atproto_firehose_ops_protoscript"@ {
        Option::Some(22int)
    } else if name == "atproto_firehose_ops_rocksky"@ {
        Option::Some(23int)
    } else if name == "atproto_firehose_ops_roomy"@ {
        Option::Some(24int)
    } else if name == "atproto_firehose_ops_scrapboard"@ {
        Option::Some(25int)
    } else if name == "atproto_firehose_ops_shadowsky"@ {
        Option::Some(26int)
    } else if name == "atproto_firehose_ops_skyblur"@ {
        Option::Some(27int)
    } else if name == "atproto_firehose_ops_skyrdle"@ {
        Option::Some(28int)
    } else if name == "atproto_firehose_ops_skyspace"@ {
        Option::Some(29int)
    } else if name == "atproto_firehose_ops_slices"@ {
        Option::Some(30int)
    } else if name == "atproto_firehose_ops_smokesignal"@ {
        Option::Some(31int)
    } else if name == "atproto_firehose_ops_sonasky"@ {
        Option::Some(32int)
    } else if name == "atproto_firehose_ops_spark"@ {
        Option::Some(33int)
    } else if name == "atproto_firehose_ops_statusphere"@ {
        Option::Some(34int)
    } else if name == "atproto_firehose_ops_streamplace"@ {
        Option::Some(35int)
    } else if name == "atproto_firehose_ops_tangled"@ {
        Option::Some(36int)
    } else if name == "atproto_firehose_ops_tealfm"@ {
        Option::Some(37int)
    } else if name == "atproto_firehose_ops_whitewind"@ {
        Option::Some(38int)
    } else if name == "atproto_firehose_ops_yoten"@ {
        Option::Some(39int)
    } else {
        Option::None
    }
}

/// All metric values at zero, the starting point of a parse.
pub open spec fn spec_zero_values() -> Seq<u64> {
    Seq::new(METRIC_COUNT as nat, |i: int| 0u64)
}

/// Index of the first occurrence of `c` in `s` at or after `from`;
/// `s.len()` when there is none.
pub open spec fn spec_find(s: Seq<char>, from: int, c: char) -> int
    decreases s.len() - from,
{
    if from < 0 || from >= s.len() {
        s.len() as int
    } else if s[from] == c {
        from
    } else {
        spec_find(s, from + 1, c)
    }
}

/// Whether every character is a decimal digit.
pub open spec fn spec_all_digits(s: Seq<char>) -> bool {
    forall|i: int| 0 <= i < s.len() ==> spec_is_digit(#[trigger] s[i])
}

/// What `str::parse::<u64>` returns on `s`: an optional leading `+`, then
/// one or more decimal digits whose value fits in a `u64`; anything else
/// fails.
pub open spec fn spec_parse_u64(s: Seq<char>) -> Option<u64> {
    let digits = if s.len() > 0 && s[0] == '+' {
        s.subrange(1, s.len() as int)
    } else {
        s
    };
    if digits.len() > 0 && spec_all_digits(digits) && spec_digits_value(digits) <= u64::MAX {
        Option::Some(spec_digits_value(digits) as u64)
    } else {
        Option::None
    }
}

/// A line without its trailing carriage return, if it carries one.
pub open spec fn spec_strip_cr(line: Seq<char>) -> Seq<char> {
    if line.len() > 0 && line.last() == '\r' {
        line.drop_last()
    } else {
        line
    }
}

/// The lines of `s`, split at newlines, each without a trailing carriage
/// return, and with no empty trailing line after a final newline.
pub open spec fn spec_lines(s: Seq<char>) -> Seq<Seq<char>>
    decreases s.len(),
{
    if s.len() == 0 {
        Seq::empty()
    } else {
        let j0 = spec_find(s, 0, '\n');
        let j = if 0 <= j0 < s.len() {
            j0
        } else {
            s.len() as int
        };
        let line = spec_strip_cr(s.subrange(0, j));
        if j == s.len() {
            seq![line]
        } else {
            seq![line] + spec_lines(s.subrange(j + 1, s.len() as int))
        }
    }
}

/// The effect of one line on the value table.
pub open spec fn spec_apply_line(vals: Seq<u64>, line: Seq<char>) -> Seq<u64> {
    let sp = spec_find(line, 0, ' ');
    if sp == line.len() {
        vals
    } else {
        let name = line.subrange(0, sp);
        let value = line.subrange(sp + 1, line.len() as int);
        match spec_parse_u64(value) {
            Option::Some(v) => match spec_metric_index(name) {
                Option::Some(m) => vals.update(m, v),
                Option::None => vals,
            },
            Option::None => vals,
        }
    }
}

/// The value table after applying a sequence of lines in order.
pub open spec fn spec_parse_body(vals: Seq<u64>, lines: Seq<Seq<char>>) -> Seq<u64>
    decreases lines.len(),
{
    if lines.len() == 0 {
        vals
    } else {
        spec_parse_body(spec_apply_line(vals, lines[0]), lines.subrange(1, lines.len() as int))
    }
}

/// `spec_find` stays within bounds, hits `c`, and skips nothing.
proof fn lemma_find_props(s: Seq<char>, from: int, c: char)
    requires
        0 <= from <= s.len(),
    ensures
        from <= spec_find(s, from, c) <= s.len(),
        spec_find(s, from, c) < s.len() ==> s[spec_find(s, from, c)] == c,
        forall|i: int| from <= i < spec_find(s, from, c) ==> s[i] != c,
    decreases s.len() - from,
{
    if from < s.len() && s[from] != c {
        lemma_find_props(s, from + 1, c);
    }
}

/// Index of the first occurrence of `c` in `s` at or after `from`, as
/// [`spec_find`] defines it.
fn find_char(s: &str, n: usize, from: usize, c: char) -> (r: usize)
    requires
        n == s@.len(),
        from <= n,
    ensures
        r == spec_find(s@, from as int, c),
        from <= r <= n,
{
    let mut i: usize = from;
    while i < n
        invariant
            n == s@.len(),
            from <= i <= n,
            spec_find(s@, from as int, c) == spec_find(s@, i as int, c),
        decreases n - i,
    {
        if s.get_char(i) == c {
            return i;
        }
        i = i + 1;
    }
    i
}

/// What `str::parse::<u64>` returns on `v`, as [`spec_parse_u64`] defines
/// it.
fn parse_u64(v: &str) -> (r: Option<u64>)
    ensures
        r == spec_parse_u64(v@),
{
    let n = v.unicode_len();
    let mut start: usize = 0;
    if n > 0 && v.get_char(0) == '+' {
        start = 1;
    }
    let ghost digits = if v@.len() > 0 && v@[0] == '+' {
        v@.subrange(1, v@.len() as int)
    } else {
        v@
    };
    proof {
        if start == 0 {
            assert(digits =~= v@.subrange(0, n as int));
        }
    }
    if start >= n {
        return None;
    }
    let mut val: u64 = 0;
    let mut i: usize = start;
    while i < n
        invariant
            n == v@.len(),
            start <= i <= n,
            start <= 1,
            n > start,
            digits == v@.subrange(start as int, n as int),
            digits == (if v@.len() > 0 && v@[0] == '+' {
                v@.subrange(1, v@.len() as int)
            } else {
                v@
            }),
            forall|k: int| start <= k < i ==> spec_is_digit(#[trigger] v@[k]),
            val == spec_digits_value(v@.subrange(start as int, i as int)),
        decreases n - i,
    {
        let c = v.get_char(i);
        let cu = c as u32;
        if cu < 48 || cu > 57 {
            proof {
                assert(0 <= i - start < digits.len());
                assert(digits[i - start] == v@[i as int]);
                assert(!spec_all_digits(digits));
            }
            return None;
        }
        let d = (cu - 48) as u64;
        proof {
            assert(v@.subrange(start as int, i + 1).drop_last() =~= v@.subrange(
                start as int,
                i as int,
            ));
        }
        let next = match val.checked_mul(10) {
            Some(x) => x.checked_add(d),
            None => None,
        };
        match next {
            Some(y) => {
                val = y;
            },
            None => {
                proof {
                    let prefix = v@.subrange(start as int, i + 1);
                    assert(spec_digits_value(prefix) > u64::MAX);
                    if spec_all_digits(digits) {
                        assert(digits.subrange(0, i + 1 - start) =~= prefix);
                        lemma_digits_extend(digits, i + 1 - start);
                    }
                }
                return None;
            },
        }
        i = i + 1;
    }
    proof {
        assert(forall|k: int| 0 <= k < digits.len() ==> spec_is_digit(#[trigger] digits[k]));
        assert(spec_all_digits(digits));
    }
    Some(val)
}

/// The index a metric name maps to, as [`spec_metric_index`] defines it.
pub fn metric_index(name: &str) -> (r: Option<usize>)
    ensures
        match r {
            Option::Some(m) => m < METRIC_COUNT && spec_metric_index(name@) == Option::Some(
                m as int,
            ),
            Option::None => spec_metric_index(name@) is None,
        },
{
    if crate::text::str_eq(name, "atproto_firehose_ops_total") {
        Option::Some(0)
    } else if crate::text::str_eq(name, "atproto_firehose_ops_2048") {
        Option::Some(1)
    } else if crate::text::str_eq(name, "atproto_firehose_ops_5leafsync") {
        Option::Some(2)
    } else if crate::text::str_eq(name, "atproto_firehose_ops_anisota") {
        Option::Some(3)
    } else if crate::text::str_eq(name, "atproto_firehose_ops_atfile") {
        Option::Some(4)
    } else if crate::text::str_eq(name, "atproto_firehose_ops_bluesky") {
        Option::Some(5)
    } else if crate::text::str_eq(name, "atproto_firehose_ops_bluebadge") {
        Option::Some(6)
    } else if crate::text::str_eq(name, "atproto_firehose_ops_bookhive") {
        Option::Some(7)
    } else if crate::text::str_eq(name, "atproto_firehose_ops_bookmark") {
        Option::Some(8)
    } else if crate::text::str_eq(name, "atproto_firehose_ops_bot_void") {
        Option::Some(9)
    } else if crate::text::str_eq(name, "atproto_firehose_ops_cabildoabierto") {
        Option::Some(10)
    } else if crate::text::str_eq(name, "atproto_firehose_ops_flashes") {
        Option::Some(11)
    } else if crate::text::str_eq(name, "atproto_firehose_ops_flushes") {
        Option::Some(12)
    } else if crate::text::str_eq(name, "atproto_firehose_ops_frontpage") {
        Option::Some(13)
    } else if crate::text::str_eq(name, "atproto_firehose_ops_germ") {
        Option::Some(14)
    } else if crate::text::str_eq(name, "atproto_firehose_ops_grain") {
        Option::Some(15)
    } else if crate::text::str_eq(name, "atproto_firehose_ops_gridsky") {
        Option::Some(16)
    } else if crate::text::str_eq(name, "atproto_firehose_ops_leaflet") {
        Option::Some(17)
    } else if crate::text::str_eq(name, "atproto_firehose_ops_linkat") {
        Option::Some(18)
    } else if crate::text::str_eq(name, "atproto_firehose_ops_picosky") {
        Option::Some(19)
    } else if crate::text::str_eq(name, "atproto_firehose_ops_pinksky") {
        Option::Some(20)
    } else if crate::text::str_eq(name, "atproto_firehose_ops_popsky") {
        Option::Some(21)
    } else if crate::text::str_eq(name, "atproto_firehose_ops_protoscript") {
        Option::Some(22)
    } else if crate::text::str_eq(name, "atproto_firehose_ops_rocksky") {
        Option::Some(23)
    } else if crate::text::str_eq(name, "atproto_firehose_ops_roomy") {
        Option::Some(24)
    } else if crate::text::str_eq(name, "atproto_firehose_ops_scrapboard") {
        Option::Some(25)
    } else if crate::text::str_eq(name, "atproto_firehose_ops_shadowsky") {
        Option::Some(26)
    } else if crate::text::str_eq(name, "atproto_firehose_ops_skyblur") {
        Option::Some(27)
    } else if crate::text::str_eq(name, "atproto_firehose_ops_skyrdle") {
        Option::Some(28)
    } else if crate::text::str_eq(name, "atproto_firehose_ops_skyspace") {
        Option::Some(29)
    } else if crate::text::str_eq(name, "atproto_firehose_ops_slices") {
        Option::Some(30)
    } else if crate::text::str_eq(name, "atproto_firehose_ops_smokesignal") {
        Option::Some(31)
    } else if crate::text::str_eq(name, "atproto_firehose_ops_sonasky") {
        Option::Some(32)
    } else if crate::text::str_eq(name, "atproto_firehose_ops_spark") {
        Option::Some(33)
    } else if crate::text::str_eq(name, "atproto_firehose_ops_statusphere") {
        Option::Some(34)
    } else if crate::text::str_eq(name, "atproto_firehose_ops_streamplace") {
        Option::Some(35)
    } else if crate::text::str_eq(name, "atproto_firehose_ops_tangled") {
        Option::Some(36)
    } else if crate::text::str_eq(name, "atproto_firehose_ops_tealfm") {
        Option::Some(37)
    } else if crate::text::str_eq(name, "atproto_firehose_ops_whitewind") {
        Option::Some(38)
    } else if crate::text::str_eq(name, "atproto_firehose_ops_yoten") {
        Option::Some(39)
    } else {
        Option::None
    }
}

impl FirehoseCount {
    /// Parses a metric exposition body: `name value` lines, unknown names
    /// and malformed lines skipped, missing metrics zero.
    pub fn from_str(s: &str) -> (r: FirehoseCount)
        ensures
            r.wf(),
            r@ == spec_parse_body(spec_zero_values(), spec_lines(s@)),
    {
        let mut counts = FirehoseCount::zero();
        proof {
            assert(counts@ =~= spec_zero_values());
        }
        let mut rest: &str = s;
        proof {
            assert(spec_parse_body(counts@, spec_lines(rest@)) == spec_parse_body(
                spec_zero_values(),
                spec_lines(s@),
            ));
        }
        loop
            invariant
                counts.wf(),
                spec_parse_body(counts@, spec_lines(rest@)) == spec_parse_body(
                    spec_zero_values(),
                    spec_lines(s@),
                ),
            ensures
                spec_parse_body(counts@, spec_lines(rest@)) == spec_parse_body(
                    spec_zero_values(),
                    spec_lines(s@),
                ),
                rest@.len() == 0,
            decreases rest@.len(),
        {
            let rn = rest.unicode_len();
            if rn == 0 {
                break;
            }
            let ghost rem = rest@;
            let j = find_char(rest, rn, 0, '\n');
            proof {
                lemma_find_props(rem, 0, '\n');
            }
            let mut line_end: usize = j;
            if j > 0 && rest.get_char(j - 1) == '\r' {
                line_end = j - 1;
            }
            let line: &str = rest.substring_char(0, line_end);
            proof {
                if j > 0 && rem[j - 1] == '\r' {
                    assert(rem.subrange(0, j as int).last() == rem[j - 1]);
                    assert(rem.subrange(0, j as int).drop_last() =~= rem.subrange(
                        0,
                        line_end as int,
                    ));
                } else if j > 0 {
                    assert(rem.subrange(0, j as int).last() == rem[j - 1]);
                }
                assert(line@ == spec_strip_cr(rem.subrange(0, j as int)));
            }
            let ln = line.unicode_len();
            let sp = find_char(line, ln, 0, ' ');
            let ghost before = counts@;
            if sp < ln {
                let name = line.substring_char(0, sp);
                let value = line.substring_char(sp + 1, ln);
                match parse_u64(value) {
                    Some(v) => {
                        match metric_index(name) {
                            Some(m) => {
                                counts.set_value(m, v);
                            },
                            None => {},
                        }
                    },
                    None => {},
                }
            }
            proof {
                assert(counts@ == spec_apply_line(before, line@));
            }
            if j < rn {
                let next: &str = rest.substring_char(j + 1, rn);
                proof {
                    let ls = spec_lines(rem);
                    assert(ls == seq![line@] + spec_lines(next@));
                    assert(ls[0] == line@);
                    assert(ls.subrange(1, ls.len() as int) =~= spec_lines(next@));
                }
                rest = next;
            } else {
                let next: &str = rest.substring_char(rn, rn);
                proof {
                    let ls = spec_lines(rem);
                    assert(ls == seq![line@]);
                    assert(ls[0] == line@);
                    assert(ls.subrange(1, ls.len() as int) =~= spec_lines(next@));
                    assert(next@.len() == 0);
                }
                rest = next;
            }
        }
        proof {
            assert(spec_lines(rest@) =~= Seq::<Seq<char>>::empty());
        }
        counts
    }
}

} // verus!
