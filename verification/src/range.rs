//! Byte ranges: the value of a `Range` request header, read against the
//! size of the file that is asked for.

use crate::text::{
    all_digits, chars_of, decimal, is_digit, lemma_decimal_digits, parse_unsigned, starts_with,
    unsigned_numeral,
};
use vstd::prelude::*;

verus! {

/// An inclusive byte interval `[start, end]` into a file.
#[derive(Clone, Copy, Debug, PartialEq, Eq, Structural)]
pub struct RangeSpec {
    pub start: u64,
    pub end: u64,
}

impl RangeSpec {
    /// Whether the interval lies within a file of `file_size` bytes.
    pub open spec fn fits(self, file_size: u64) -> bool {
        self.start <= self.end < file_size
    }

    /// The number of bytes in the interval.
    pub open spec fn span(self) -> int {
        self.end - self.start + 1
    }
}

/// The number of characters that every accepted header begins with, the
/// length of `bytes=`.
pub const UNIT_LEN: usize = 6;

/// Whether `s` holds a dash at `d` and nowhere else.
pub open spec fn sole_dash(s: Seq<char>, d: int) -> bool {
    &&& 0 <= d < s.len()
    &&& forall|i: int| 0 <= i < s.len() ==> (#[trigger] s[i] == '-' <==> i == d)
}

/// The interval that the two sides of the dash ask for: from the first
/// number to the second, or to the last byte of the file where no second
/// number is given. There is none unless it lies within the file.
pub open spec fn range_between(first: Seq<char>, second: Seq<char>, file_size: u64) -> Option<
    RangeSpec,
> {
    let end = if second.len() == 0 {
        if file_size > 0 {
            Some((file_size - 1) as u64)
        } else {
            None
        }
    } else {
        unsigned_numeral(second)
    };
    match (unsigned_numeral(first), end) {
        (Some(start), Some(end)) => if start <= end && end < file_size {
            Some(RangeSpec { start, end })
        } else {
            None
        },
        _ => None,
    }
}

/// The interval that a `Range` header value asks for in a file of
/// `file_size` bytes: the value is `bytes=`, a number, one dash and
/// perhaps a second number, and the interval lies within the file. Every
/// other value asks for none.
pub open spec fn parsed_range(header: Seq<char>, file_size: u64) -> Option<RangeSpec> {
    let rest = header.skip(UNIT_LEN as int);
    if "bytes="@.is_prefix_of(header) && exists|d: int| sole_dash(rest, d) {
        let d = choose|d: int| sole_dash(rest, d);
        range_between(rest.take(d), rest.skip(d + 1), file_size)
    } else {
        None
    }
}

/// Reads the value of a `Range` header against a file of `file_size` bytes.
///
/// Only the single-range form `bytes=<start>-<end>` is accepted, with
/// `<end>` left out for "to the end of the file". A value in any other
/// form, or one that asks for bytes outside the file, gives `None`, and the
/// caller answers with the whole file.
pub fn parse_range(range_str: &str, file_size: u64) -> (range: Option<RangeSpec>)
    ensures
        range == parsed_range(range_str@, file_size),
        range matches Some(r) ==> r.fits(file_size),
{
    let chars = chars_of(range_str);
    proof {
        reveal_strlit("bytes=");
    }
    if !starts_with(&chars, "bytes=") {
        return None;
    }
    let ghost rest = chars@.skip(UNIT_LEN as int);
    let mut dash: usize = UNIT_LEN;
    while dash < chars.len() && chars[dash] != '-'
        invariant
            UNIT_LEN <= dash <= chars.len(),
            forall|i: int| UNIT_LEN <= i < dash ==> chars@[i] != '-',
        decreases chars.len() - dash,
    {
        dash = dash + 1;
    }
    if dash == chars.len() {
        assert forall|d: int| !sole_dash(rest, d) by {
            if 0 <= d < rest.len() {
                assert(rest[d] == chars@[d + UNIT_LEN]);
            }
        }
        return None;
    }
    let mut i: usize = dash + 1;
    while i < chars.len()
        invariant
            UNIT_LEN <= dash < i <= chars.len(),
            chars@ == range_str@,
            rest == chars@.skip(UNIT_LEN as int),
            chars@[dash as int] == '-',
            forall|j: int| dash < j < i ==> chars@[j] != '-',
        decreases chars.len() - i,
    {
        if chars[i] == '-' {
            assert forall|d: int| !sole_dash(rest, d) by {
                assert(rest[dash - UNIT_LEN] == '-');
                assert(rest[i - UNIT_LEN] == '-');
            }
            return None;
        }
        i = i + 1;
    }
    let ghost d0 = dash - UNIT_LEN;
    assert(sole_dash(rest, d0)) by {
        assert forall|j: int| 0 <= j < rest.len() implies (#[trigger] rest[j] == '-' <==> j
            == d0) by {
            assert(rest[j] == chars@[j + UNIT_LEN]);
        }
    }
    let ghost d = choose|d: int| sole_dash(rest, d);
    assert(d == d0) by {
        assert(rest[d0] == '-');
    }
    assert(rest.take(d) =~= chars@.subrange(UNIT_LEN as int, dash as int));
    assert(rest.skip(d + 1) =~= chars@.subrange(dash + 1, chars.len() as int));
    let start = match parse_unsigned(&chars, UNIT_LEN, dash) {
        Some(start) => start,
        None => { return None; },
    };
    let end = if dash + 1 == chars.len() {
        if file_size == 0 {
            return None;
        }
        file_size - 1
    } else {
        match parse_unsigned(&chars, dash + 1, chars.len()) {
            Some(end) => end,
            None => { return None; },
        }
    };
    if start > end || end >= file_size {
        return None;
    }
    Some(RangeSpec { start, end })
}

/// The header value that asks for the bytes from `start` to `end`.
pub open spec fn closed_header(start: u64, end: u64) -> Seq<char> {
    "bytes="@ + decimal(start as nat) + "-"@ + decimal(end as nat)
}

/// The header value that asks for the bytes from `start` to the end of the
/// file.
pub open spec fn open_header(start: u64) -> Seq<char> {
    "bytes="@ + decimal(start as nat) + "-"@
}

/// A numeral holds no dash and no sign, so it reads as itself and cannot be
/// taken for a second range.
proof fn lemma_header_parts(start: u64, tail: Seq<char>)
    requires
        all_digits(tail),
    ensures
        "bytes="@.is_prefix_of("bytes="@ + decimal(start as nat) + "-"@ + tail),
        sole_dash(
            ("bytes="@ + decimal(start as nat) + "-"@ + tail).skip(UNIT_LEN as int),
            decimal(start as nat).len() as int,
        ),
        ("bytes="@ + decimal(start as nat) + "-"@ + tail).skip(UNIT_LEN as int).take(
            decimal(start as nat).len() as int,
        ) == decimal(start as nat),
        ("bytes="@ + decimal(start as nat) + "-"@ + tail).skip(UNIT_LEN as int).skip(
            decimal(start as nat).len() as int + 1,
        ) == tail,
{
    reveal_strlit("bytes=");
    reveal_strlit("-");
    let first = decimal(start as nat);
    let header = "bytes="@ + first + "-"@ + tail;
    let rest = header.skip(UNIT_LEN as int);
    lemma_decimal_digits(start as nat);
    assert("bytes="@ =~= header.subrange(0, UNIT_LEN as int));
    assert(rest =~= first + "-"@ + tail);
    assert forall|i: int| 0 <= i < rest.len() implies (#[trigger] rest[i] == '-' <==> i
        == first.len()) by {
        if i < first.len() {
            assert(is_digit(first[i]));
        } else if i > first.len() {
            assert(is_digit(tail[i - first.len() - 1]));
        }
    }
    assert(rest.take(first.len() as int) =~= first);
    assert(rest.skip(first.len() as int + 1) =~= tail);
}

/// A header that names both ends is accepted exactly when the interval is
/// in order and within the file, and then gives back the two numbers.
pub proof fn lemma_closed_header(start: u64, end: u64, file_size: u64)
    ensures
        parsed_range(closed_header(start, end), file_size) == if start <= end && end < file_size {
            Some(RangeSpec { start, end })
        } else {
            None
        },
{
    let first = decimal(start as nat);
    let second = decimal(end as nat);
    lemma_decimal_digits(start as nat);
    lemma_decimal_digits(end as nat);
    lemma_header_parts(start, second);
    let rest = closed_header(start, end).skip(UNIT_LEN as int);
    let d = choose|d: int| sole_dash(rest, d);
    assert(rest[first.len() as int] == '-');
    assert(d == first.len());
    assert(is_digit(first[0]));
    assert(is_digit(second[0]));
}

/// A header that names only the first byte is accepted exactly when that
/// byte is within the file, and then runs to the file's last byte.
pub proof fn lemma_open_header(start: u64, file_size: u64)
    ensures
        parsed_range(open_header(start), file_size) == if start < file_size {
            Some(RangeSpec { start, end: (file_size - 1) as u64 })
        } else {
            None
        },
{
    let first = decimal(start as nat);
    lemma_decimal_digits(start as nat);
    lemma_header_parts(start, Seq::<char>::empty());
    assert(open_header(start) =~= "bytes="@ + first + "-"@ + Seq::<char>::empty());
    let rest = open_header(start).skip(UNIT_LEN as int);
    let d = choose|d: int| sole_dash(rest, d);
    assert(rest[first.len() as int] == '-');
    assert(d == first.len());
    assert(is_digit(first[0]));
}

} // verus!
