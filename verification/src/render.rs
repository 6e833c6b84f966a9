//! The result pipeline's formatting: human-readable sizes in binary
//! units, UTC timestamps, and the one-per-record output line.

use vstd::prelude::*;
use vstd::string::*;
use crate::record::{FileRecord, RecordView, SearchOptions};
use crate::strutil::{dec_of, digit, push_dec};

verus! {

/// The largest timestamp the date column renders: 9999-12-31 23:59:59 UTC.
pub const MAX_DISPLAY_SECS: u64 = 253402300799;

/// The `YYYY-MM-DD HH:MM:SS` rendering, in UTC, of a timestamp in whole
/// seconds since the Unix epoch.
pub uninterp spec fn utc_datetime(secs: u64) -> Seq<char>;

/// Relies on chrono's `DateTime::from_timestamp` and the `%Y-%m-%d
/// %H:%M:%S` formatter: the rendering is a pure function of the
/// timestamp, in UTC, independent of locale and machine time zone.
#[verifier::external_body]
fn format_utc(secs: u64) -> (r: String)
    requires
        secs <= MAX_DISPLAY_SECS,
    ensures
        r@ == utc_datetime(secs),
{
    match chrono::DateTime::from_timestamp(secs as i64, 0) {
        Some(dt) => dt.format("%Y-%m-%d %H:%M:%S").to_string(),
        // unreachable: every second up to the display cap is well
        // inside chrono's representable range
        None => String::new(),
    }
}

/// The divisor of the largest binary unit that `size` reaches.
pub open spec fn size_divisor(size: u64) -> int {
    if size < 1024 {
        1
    } else if size < 1048576 {
        1024
    } else if size < 1073741824 {
        1048576
    } else if size < 1099511627776 {
        1073741824
    } else if size < 1125899906842624 {
        1099511627776
    } else {
        1125899906842624
    }
}

/// The suffix of the unit that `size` is rendered in.
pub open spec fn size_suffix(size: u64) -> Seq<char> {
    if size < 1024 {
        "B"@
    } else if size < 1048576 {
        "KB"@
    } else if size < 1073741824 {
        "MB"@
    } else if size < 1099511627776 {
        "GB"@
    } else if size < 1125899906842624 {
        "TB"@
    } else {
        "PB"@
    }
}

/// The scaled size in hundredths of its unit before the carry: the
/// fractional hundredths are rounded to nearest, half away from zero.
pub open spec fn frac_centi(size: u64) -> int {
    let p = size_divisor(size);
    (100 * (size as int % p) + p / 2) / p
}

/// The integer part of the rendered size, after the rounding carry.
pub open spec fn human_whole(size: u64) -> int {
    let p = size_divisor(size);
    if frac_centi(size) == 100 {
        size as int / p + 1
    } else {
        size as int / p
    }
}

/// The two rendered hundredths digits, after the rounding carry.
pub open spec fn human_frac(size: u64) -> int {
    if frac_centi(size) == 100 {
        0
    } else {
        frac_centi(size)
    }
}

/// The human-readable rendering: the literal `0 B` for zero, and
/// otherwise the size scaled to the largest binary unit it reaches,
/// with exactly two decimal places.
pub open spec fn human_size(size: u64) -> Seq<char> {
    if size == 0 {
        "0 B"@
    } else {
        dec_of(human_whole(size)) + seq!['.'] + seq![
            digit(human_frac(size) / 10),
            digit(human_frac(size) % 10),
        ] + seq![' '] + size_suffix(size)
    }
}

/// Renders `size` with binary unit suffixes, `B` through `PB`, rounded
/// to two decimal places; zero renders as `0 B`. `PB` is the largest
/// unit, so every size from a binary petabyte up stays in it.
pub fn human_readable_size(size: u64) -> (r: String)
    ensures
        r@ == human_size(size),
{
    if size == 0 {
        return String::from_str("0 B");
    }
    let p: u64 = if size < 1024 {
        1
    } else if size < 1048576 {
        1024
    } else if size < 1073741824 {
        1048576
    } else if size < 1099511627776 {
        1073741824
    } else if size < 1125899906842624 {
        1099511627776
    } else {
        1125899906842624
    };
    let unit: &str = if size < 1024 {
        "B"
    } else if size < 1048576 {
        "KB"
    } else if size < 1073741824 {
        "MB"
    } else if size < 1099511627776 {
        "GB"
    } else if size < 1125899906842624 {
        "TB"
    } else {
        "PB"
    };
    proof {
        assert(p as int == size_divisor(size));
        assert(unit@ == size_suffix(size));
    }
    let q: u64 = size / p;
    let rem: u64 = size % p;
    let fc: u64 = (100 * rem + p / 2) / p;
    proof {
        let pp = p as int;
        let x = 100 * (rem as int) + pp / 2;
        assert(x < 101 * pp);
        vstd::arithmetic::div_mod::lemma_fundamental_div_mod(x, pp);
        assert(pp * (x / pp) <= x);
        assert(x / pp <= 100) by (nonlinear_arith)
            requires
                pp * (x / pp) <= x,
                x < 101 * pp,
                pp > 0,
        ;
        assert(fc as int == frac_centi(size));
        let s = size as int;
        vstd::arithmetic::div_mod::lemma_fundamental_div_mod(s, pp);
        assert(s < 16384 * pp);
        assert(pp * (s / pp) <= s);
        assert(s / pp <= 16383) by (nonlinear_arith)
            requires
                pp * (s / pp) <= s,
                s < 16384 * pp,
                pp > 0,
        ;
        assert(q as int == s / pp);
    }
    let whole: u64 = if fc == 100 {
        q + 1
    } else {
        q
    };
    let frac: u64 = if fc == 100 {
        0
    } else {
        fc
    };
    proof {
        assert(whole as int == human_whole(size));
        assert(frac as int == human_frac(size));
        assert(frac < 100);
    }
    let mut out = String::new();
    push_dec(whole, &mut out);
    crate::strutil::push_char(&mut out, '.');
    push_dec(frac / 10, &mut out);
    push_dec(frac % 10, &mut out);
    crate::strutil::push_char(&mut out, ' ');
    out.append(unit);
    proof {
        assert(dec_of((frac / 10) as int) == seq![digit(human_frac(size) / 10)]);
        assert(dec_of((frac % 10) as int) == seq![digit(human_frac(size) % 10)]);
        assert(out@ =~= human_size(size));
    }
    out
}

/// The date column of one line, present when requested and renderable.
pub open spec fn date_part(opts: SearchOptions, r: RecordView) -> Seq<char> {
    if opts.date && r.modified <= MAX_DISPLAY_SECS {
        ", Modified: "@ + utc_datetime(r.modified)
    } else {
        Seq::empty()
    }
}

/// The size column of one line: present when requested and the path
/// still names a regular file at formatting time, raw or human-readable.
pub open spec fn size_part(opts: SearchOptions, r: RecordView, is_file_now: bool) -> Seq<char> {
    if opts.size && is_file_now {
        if opts.human_readable {
            ", Size: "@ + human_size(r.size)
        } else {
            ", Size: "@ + dec_of(r.size as int) + " bytes"@
        }
    } else {
        Seq::empty()
    }
}

/// The content-match column of one line.
pub open spec fn content_part(opts: SearchOptions, r: RecordView) -> Seq<char> {
    if opts.content_search && r.matches_content {
        ", Matches content"@
    } else {
        Seq::empty()
    }
}

/// The whole output line for one record.
pub open spec fn line_of(opts: SearchOptions, r: RecordView, is_file_now: bool) -> Seq<char> {
    "Found: "@ + r.path + date_part(opts, r) + size_part(opts, r, is_file_now) + content_part(
        opts,
        r,
    )
}

/// Renders one record as its output line. `is_file_now` says whether
/// the record's path still names a regular file at formatting time; the
/// size column hangs on that fresh check, not on what the traversal saw.
/// A modification time past 9999-12-31 23:59:59 UTC gets no date
/// column: the `YYYY-MM-DD` form cannot carry such a year.
pub fn format_line(rec: &FileRecord, opts: &SearchOptions, is_file_now: bool) -> (r: String)
    ensures
        r@ == line_of(*opts, rec@, is_file_now),
{
    let mut out = String::from_str("Found: ");
    out.append(rec.path.as_str());
    if opts.date && rec.modified <= MAX_DISPLAY_SECS {
        out.append(", Modified: ");
        let d = format_utc(rec.modified);
        out.append(d.as_str());
    }
    if opts.size && is_file_now {
        out.append(", Size: ");
        if opts.human_readable {
            let h = human_readable_size(rec.size);
            out.append(h.as_str());
        } else {
            push_dec(rec.size, &mut out);
            out.append(" bytes");
        }
    }
    if opts.content_search && rec.matches_content {
        out.append(", Matches content");
    }
    proof {
        assert(out@ =~= line_of(*opts, rec@, is_file_now));
    }
    out
}

} // verus!
