//! Parsing of HTTP `Range` headers against a known total size.
//!
//! Only a single-range specifier of the form `bytes=start-end` (or the
//! open-ended `bytes=start-`) is accepted; anything else yields `None`, which
//! tells the caller to fall back to a full-content response. A Range header is
//! an optimization hint, not a hard requirement, so rejection is never an
//! error.
use vstd::prelude::*;

verus! {

/// Whether a character is a decimal digit.
pub open spec fn is_digit(c: char) -> bool {
    48 <= (c as u32) <= 57
}

/// The numeric value of a digit character.
pub open spec fn digit_val(c: char) -> nat {
    ((c as u32) - 48) as nat
}

/// Whether every character of the sequence is a decimal digit.
pub open spec fn all_digits(s: Seq<char>) -> bool {
    forall|i: int| 0 <= i < s.len() ==> is_digit(#[trigger] s[i])
}

/// The value of a digit sequence read in base ten.
pub open spec fn digits_val(s: Seq<char>) -> nat
    decreases s.len(),
{
    if s.len() == 0 {
        0
    } else {
        digits_val(s.drop_last()) * 10 + digit_val(s.last())
    }
}

/// How an unsigned decimal integer is read from a string: an optional leading
/// plus sign, then at least one digit, and the value must fit in the type.
pub open spec fn spec_parse_u64(s: Seq<char>) -> Option<u64> {
    let ds = if s.len() > 0 && s[0] == '+' {
        s.drop_first()
    } else {
        s
    };
    if ds.len() > 0 && all_digits(ds) && digits_val(ds) <= u64::MAX {
        Some(digits_val(ds) as u64)
    } else {
        None
    }
}

/// The index of the first occurrence of a character.
pub open spec fn find_char(s: Seq<char>, c: char) -> Option<int>
    decreases s.len(),
{
    if s.len() == 0 {
        None
    } else if s[0] == c {
        Some(0)
    } else {
        match find_char(s.drop_first(), c) {
            None => None,
            Some(i) => Some(i + 1),
        }
    }
}

proof fn lemma_find_char(s: Seq<char>, c: char)
    ensures
        match find_char(s, c) {
            Some(i) => 0 <= i < s.len() && s[i] == c && forall|j: int| 0 <= j < i ==> s[j] != c,
            None => forall|j: int| 0 <= j < s.len() ==> s[j] != c,
        },
    decreases s.len(),
{
    if s.len() > 0 && s[0] != c {
        lemma_find_char(s.drop_first(), c);
        assert(forall|j: int| 1 <= j < s.len() ==> s[j] == #[trigger] s.drop_first()[j - 1]);
        match find_char(s.drop_first(), c) {
            None => {
                assert forall|j: int| 0 <= j < s.len() implies s[j] != c by {
                    if j >= 1 {
                        assert(s[j] == s.drop_first()[j - 1]);
                    }
                }
            },
            Some(i) => {
                assert(s[i + 1] == s.drop_first()[i]);
                assert forall|j: int| 0 <= j < i + 1 implies s[j] != c by {
                    if j >= 1 {
                        assert(s[j] == s.drop_first()[j - 1]);
                    }
                }
            },
        }
    }
}

/// The result of parsing a Range header against a total size: the closed byte
/// interval `(start, end)` with `start <= end < total`, or nothing. An absent
/// end means the rest of the file. A missing `bytes=` prefix, a missing dash,
/// an unparsable number, a multi-range specifier (its comma makes the second
/// number unparsable), or bounds outside the file all yield `None`.
pub open spec fn spec_parse_range(header: Seq<char>, total: u64) -> Option<(u64, u64)> {
    if !("bytes="@.is_prefix_of(header)) {
        None
    } else {
        let rest = header.skip(6);
        match find_char(rest, '-') {
            None => None,
            Some(d) => match spec_parse_u64(rest.take(d)) {
                None => None,
                Some(start) => {
                    let tail = rest.skip(d + 1);
                    if tail.len() == 0 {
                        if total > 0 && start <= total - 1 {
                            Some((start, (total - 1) as u64))
                        } else {
                            None
                        }
                    } else {
                        match spec_parse_u64(tail) {
                            None => None,
                            Some(end) => if start <= end && end < total {
                                Some((start, end))
                            } else {
                                None
                            },
                        }
                    }
                },
            },
        }
    }
}

proof fn lemma_digits_val_prefix(s: Seq<char>, k: int)
    requires
        0 <= k <= s.len(),
    ensures
        digits_val(s.take(k)) <= digits_val(s),
    decreases s.len(),
{
    if k < s.len() {
        lemma_digits_val_prefix(s.drop_last(), k);
        assert(s.drop_last().take(k) =~= s.take(k));
    } else {
        assert(s.take(k) =~= s);
    }
}

/// Reads an unsigned decimal integer from a slice of the characters of `s`,
/// the half-open character range `from..to`.
fn parse_u64_slice(s: &str, from: usize, to: usize) -> (r: Option<u64>)
    requires
        from <= to <= s@.len(),
    ensures
        r == spec_parse_u64(s@.subrange(from as int, to as int)),
{
    let ghost whole = s@.subrange(from as int, to as int);
    let mut i = from;
    if i < to && s.get_char(i) == '+' {
        i = i + 1;
    }
    let ghost ds = if whole.len() > 0 && whole[0] == '+' {
        whole.drop_first()
    } else {
        whole
    };
    proof {
        assert(ds =~= s@.subrange(i as int, to as int));
    }
    if i == to {
        return None;
    }
    let start = i;
    let mut acc: u64 = 0;
    while i < to
        invariant
            from <= start <= i <= to <= s@.len(),
            whole == s@.subrange(from as int, to as int),
            ds == (if whole.len() > 0 && whole[0] == '+' {
                whole.drop_first()
            } else {
                whole
            }),
            ds.len() > 0,
            ds =~= s@.subrange(start as int, to as int),
            all_digits(s@.subrange(start as int, i as int)),
            acc as nat == digits_val(s@.subrange(start as int, i as int)),
        decreases to - i,
    {
        let c = s.get_char(i);
        let cv = c as u32;
        if cv < 48 || cv > 57 {
            proof {
                assert(ds[i - start] == s@[i as int]);
                assert(!all_digits(ds));
            }
            return None;
        }
        let d = (cv - 48) as u64;
        let wide: u128 = acc as u128 * 10 + d as u128;
        proof {
            assert(s@.subrange(start as int, i + 1).drop_last() =~= s@.subrange(
                start as int,
                i as int,
            ));
            assert(s@.subrange(start as int, i + 1).last() == s@[i as int]);
        }
        if wide > u64::MAX as u128 {
            proof {
                assert(wide as nat == digits_val(s@.subrange(start as int, i + 1)));
                assert(s@.subrange(start as int, i + 1) =~= ds.take(i + 1 - start));
                lemma_digits_val_prefix(ds, i + 1 - start);
                assert(digits_val(ds) > u64::MAX);
            }
            return None;
        }
        acc = wide as u64;
        i = i + 1;
    }
    proof {
        assert(s@.subrange(start as int, to as int) =~= ds);
    }
    Some(acc)
}

/// Parses an HTTP Range header against the file's total size, yielding the
/// closed byte interval to serve, or `None` where the header is absent in
/// spirit: malformed, multi-range, or out of bounds.
pub fn parse_range_header(range_str: &str, file_size: u64) -> (r: Option<(u64, u64)>)
    ensures
        r == spec_parse_range(range_str@, file_size),
        (r matches Some(b) ==> b.0 <= b.1 < file_size),
{
    let n = range_str.unicode_len();
    proof {
        reveal_strlit("bytes=");
        assert(("bytes=")@ =~= seq!['b', 'y', 't', 'e', 's', '=']);
    }
    if n < 6 {
        proof {
            assert(!("bytes="@.is_prefix_of(range_str@)));
        }
        return None;
    }
    if !(range_str.get_char(0) == 'b' && range_str.get_char(1) == 'y' && range_str.get_char(2)
        == 't' && range_str.get_char(3) == 'e' && range_str.get_char(4) == 's'
        && range_str.get_char(5) == '=') {
        proof {
            assert(!("bytes="@.is_prefix_of(range_str@))) by {
                if "bytes="@.is_prefix_of(range_str@) {
                    assert(forall|j: int|
                        0 <= j < 6 ==> ("bytes=")@[j] == #[trigger] range_str@.subrange(0, 6)[j]);
                }
            }
        }
        return None;
    }
    proof {
        assert(("bytes=")@ =~= range_str@.subrange(0, 6));
    }
    let ghost rest = range_str@.skip(6);
    let mut dash: usize = 6;
    loop
        invariant
            6 <= dash <= n,
            n == range_str@.len(),
            forall|j: int| 6 <= j < dash ==> range_str@[j] != '-',
        ensures
            dash == n || (dash < n && range_str@[dash as int] == '-' && forall|j: int|
                6 <= j < dash ==> range_str@[j] != '-'),
        decreases n - dash,
    {
        if dash == n {
            break ;
        }
        if range_str.get_char(dash) == '-' {
            break ;
        }
        dash = dash + 1;
    }
    proof {
        lemma_find_char(rest, '-');
        assert(forall|j: int| 0 <= j < rest.len() ==> rest[j] == range_str@[j + 6]);
    }
    if dash == n {
        proof {
            assert(find_char(rest, '-') is None) by {
                match find_char(rest, '-') {
                    None => {},
                    Some(i) => {
                        assert(rest[i] == '-');
                        assert(range_str@[i + 6] != '-');
                    },
                }
            }
        }
        return None;
    }
    proof {
        assert(find_char(rest, '-') == Some(dash - 6)) by {
            assert(rest[dash - 6] == '-');
            match find_char(rest, '-') {
                None => {
                    assert(rest[dash - 6] != '-');
                },
                Some(i) => {
                    if i < dash - 6 {
                        assert(range_str@[i + 6] != '-');
                    }
                    if i > dash - 6 {
                        assert(rest[dash - 6] != '-');
                    }
                },
            }
        }
        assert(rest.take(dash - 6) =~= range_str@.subrange(6, dash as int));
        assert(rest.skip(dash - 6 + 1) =~= range_str@.subrange(dash + 1, n as int));
    }
    let start_opt = parse_u64_slice(range_str, 6, dash);
    let start = match start_opt {
        Some(v) => v,
        None => {
            return None;
        },
    };
    if dash + 1 == n {
        if file_size > 0 && start <= file_size - 1 {
            return Some((start, file_size - 1));
        } else {
            return None;
        }
    }
    let end_opt = parse_u64_slice(range_str, dash + 1, n);
    let end = match end_opt {
        Some(v) => v,
        None => {
            return None;
        },
    };
    if start <= end && end < file_size {
        Some((start, end))
    } else {
        None
    }
}

} // verus!
