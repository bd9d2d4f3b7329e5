//! How a run reports on itself: sizes, lines for the terminal, the exit code.
use vstd::prelude::*;
use vstd::string::*;

use crate::number::{decimal, digits};

verus! {

/// How far apart the numbers are that a double has room for, around `n`.
pub open spec fn grain(n: nat) -> nat
    decreases n,
{
    if n < 9_007_199_254_740_992 {
        1
    } else {
        2 * grain(n / 2)
    }
}

/// `n / d`, to the nearest whole number. A tie goes to the even one.
pub open spec fn nearest(n: nat, d: nat) -> nat {
    if 2 * (n % d) > d || (2 * (n % d) == d && (n / d) % 2 == 1) {
        n / d + 1
    } else {
        n / d
    }
}

/// The double that is nearest to `n`.
pub open spec fn as_double(n: nat) -> nat {
    nearest(n, grain(n)) * grain(n)
}

/// What one of the unit is worth: bytes, and then 1024 of the unit before.
pub open spec fn worth(n: nat) -> nat {
    if n < 1024 {
        1
    } else if n < 1_048_576 {
        1024
    } else if n < 1_073_741_824 {
        1_048_576
    } else {
        1_073_741_824
    }
}

/// A number of tenths with its decimal point.
pub open spec fn with_point(tenths: nat) -> Seq<char> {
    digits(tenths / 10) + "."@ + digits(tenths % 10)
}

/// A size as people read it: bytes as they are, anything larger in the largest unit that leaves at
/// least one, to one decimal. The computation is that of a double.
pub open spec fn size_text(n: nat) -> Seq<char> {
    let v = as_double(n);
    let tenths = nearest(10 * v, worth(v));
    if v < 1024 {
        digits(n) + " B"@
    } else if v < 1_048_576 {
        with_point(tenths) + " KB"@
    } else if v < 1_073_741_824 {
        with_point(tenths) + " MB"@
    } else {
        with_point(tenths) + " GB"@
    }
}

proof fn grain_bounds(n: nat)
    ensures
        grain(n) >= 1,
        grain(n) <= n || n == 0,
    decreases n,
{
    if n >= 9_007_199_254_740_992 {
        grain_bounds(n / 2);
    }
}

fn grain_of(n: u64) -> (r: u64)
    ensures
        r == grain(n as nat),
    decreases n,
{
    proof {
        grain_bounds(n as nat);
    }
    if n < 9_007_199_254_740_992 {
        1
    } else {
        2 * grain_of(n / 2)
    }
}

fn nearest_of(n: u128, d: u128) -> (r: u128)
    requires
        0 < d <= 0x1_0000_0000_0000_0000,
        n < u128::MAX,
    ensures
        r == nearest(n as nat, d as nat),
{
    let q: u128 = n / d;
    let rest: u128 = n % d;
    proof {
        vstd::arithmetic::div_mod::lemma_div_is_ordered_by_denominator(n as int, 1, d as int);
    }
    if 2 * rest > d || (2 * rest == d && q % 2 == 1) {
        q + 1
    } else {
        q
    }
}

proof fn double_bounds(n: nat)
    requires
        n <= u64::MAX,
    ensures
        as_double(n) <= 2 * n,
        as_double(n) <= 0x2_0000_0000_0000_0000,
{
    grain_bounds(n);
    let g = grain(n);
    let q = n / g;
    vstd::arithmetic::div_mod::lemma_fundamental_div_mod(n as int, g as int);
    if n > 0 {
        assert((q + 1) * g <= 2 * n) by (nonlinear_arith)
            requires
                n == g * q + n % g,
                0 <= n % g,
                1 <= g <= n,
        ;
        assert(nearest(n, g) * g <= (q + 1) * g) by (nonlinear_arith)
            requires
                nearest(n, g) <= q + 1,
                g >= 1,
        ;
    } else {
        assert(grain(0) == 1);
        assert(nearest(0, 1) == 0);
    }
}

fn double_of(n: u64) -> (r: u128)
    ensures
        r == as_double(n as nat),
        r <= 0x2_0000_0000_0000_0000,
{
    proof {
        grain_bounds(n as nat);
        double_bounds(n as nat);
    }
    let g: u128 = grain_of(n) as u128;
    let q: u128 = nearest_of(n as u128, g);
    assert(q * g == as_double(n as nat));
    q * g
}

fn point(tenths: u128) -> (r: String)
    requires
        tenths <= u64::MAX,
    ensures
        r@ == with_point(tenths as nat),
{
    let mut s = decimal((tenths / 10) as u64);
    s.append(".");
    let d = decimal((tenths % 10) as u64);
    s.append(d.as_str());
    s
}

proof fn tenths_fit(v: nat)
    requires
        v >= 1024,
        v <= 0x2_0000_0000_0000_0000,
    ensures
        nearest(10 * v, worth(v)) <= u64::MAX,
{
    let w = worth(v);
    if v < 1_048_576 {
        assert((10 * v) / w <= 10 * 1_048_576);
    } else if v < 1_073_741_824 {
        assert((10 * v) / w <= 10 * 1_048_576);
    } else {
        assert((10 * v) / w <= 10 * 0x2_0000_0000_0000);
    }
}

/// A size as people read it.
pub fn human(n: u64) -> (r: String)
    ensures
        r@ == size_text(n as nat),
{
    let v: u128 = double_of(n);
    if v < 1024 {
        let mut s = decimal(n);
        s.append(" B");
        return s;
    }
    proof {
        tenths_fit(v as nat);
    }
    if v < 1_048_576 {
        let mut s = point(nearest_of(10 * v, 1024));
        s.append(" KB");
        s
    } else if v < 1_073_741_824 {
        let mut s = point(nearest_of(10 * v, 1_048_576));
        s.append(" MB");
        s
    } else {
        let mut s = point(nearest_of(10 * v, 1_073_741_824));
        s.append(" GB");
        s
    }
}

/// A text behind the program's own mark.
pub open spec fn marked(text: Seq<char>) -> Seq<char> {
    "[rbuild] "@ + text
}

/// Puts the program's own mark in front of a text.
pub fn mark(text: &str) -> (r: String)
    ensures
        r@ == marked(text@),
{
    let mut s = "[rbuild] ".to_owned();
    s.append(text);
    s
}

/// What a sync that sent something says.
pub open spec fn sync_text(up: nat, del: nat, sent: nat, seconds: Seq<char>) -> Seq<char> {
    marked(
        "sync: "@ + digits(up) + " up, "@ + digits(del) + " del, "@ + size_text(sent) + " in "@
            + seconds + "s"@,
    )
}

/// What a sync that sent something says. `seconds` is how long it took, to one decimal.
pub fn sync_line(up: usize, del: usize, sent: u64, seconds: &str) -> (r: String)
    ensures
        r@ == sync_text(up as nat, del as nat, sent as nat, seconds@),
{
    let mut s = "sync: ".to_owned();
    let n = decimal(up as u64);
    s.append(n.as_str());
    s.append(" up, ");
    let n = decimal(del as u64);
    s.append(n.as_str());
    s.append(" del, ");
    let n = human(sent);
    s.append(n.as_str());
    s.append(" in ");
    s.append(seconds);
    s.append("s");
    mark(s.as_str())
}

/// What a fetch says.
pub open spec fn fetch_text(wire: nat, raw: nat, ratio: Seq<char>, to: Seq<char>) -> Seq<char> {
    marked(
        size_text(wire) + " on the wire, "@ + size_text(raw) + " on disk ("@ + ratio + "x) -> "@ + to,
    )
}

/// What a fetch says. `ratio` is that of the two sizes, to one decimal.
pub fn fetch_line(wire: u64, raw: u64, ratio: &str, to: &str) -> (r: String)
    ensures
        r@ == fetch_text(wire as nat, raw as nat, ratio@, to@),
{
    let mut s = human(wire);
    s.append(" on the wire, ");
    let n = human(raw);
    s.append(n.as_str());
    s.append(" on disk (");
    s.append(ratio);
    s.append("x) -> ");
    s.append(to);
    mark(s.as_str())
}

/// What an upload says while it goes on.
pub open spec fn upload_text(sent: nat, total: nat) -> Seq<char> {
    marked("uploading "@ + size_text(sent) + "/"@ + size_text(total) + "   "@)
}

/// What an upload says while it goes on.
pub fn upload_line(sent: u64, total: u64) -> (r: String)
    ensures
        r@ == upload_text(sent as nat, total as nat),
{
    let mut s = "uploading ".to_owned();
    let n = human(sent);
    s.append(n.as_str());
    s.append("/");
    let n = human(total);
    s.append(n.as_str());
    s.append("   ");
    mark(s.as_str())
}

/// The exit code that a program's own becomes: at most 255, and the lowest byte of a negative one.
pub open spec fn exit_of(code: int) -> int {
    if code > 255 {
        255
    } else {
        code % 256
    }
}

/// The exit code that a program's own becomes. A program that was killed has none, and fails.
pub fn exit_byte(code: Option<i32>) -> (r: u8)
    ensures
        r == exit_of(
            match code {
                Some(c) => c as int,
                None => 1,
            },
        ),
{
    let c: i32 = match code {
        Some(c) => c,
        None => 1,
    };
    if c > 255 {
        255
    } else {
        assert((c as u8) == c % 256) by (bit_vector);
        #[verifier::truncate]
        (c as u8)
    }
}

/// A code that a process can have is kept, a larger one becomes the largest, and of a negative one the
/// lowest byte is kept.
pub proof fn which_exit_code_is_given(code: int)
    ensures
        0 <= exit_of(code) <= 255,
        0 <= code <= 255 ==> exit_of(code) == code,
        code > 255 ==> exit_of(code) == 255,
        code < 0 ==> (exit_of(code) - code) % 256 == 0,
        exit_of(code) == 0 ==> code <= 0,
{
}

/// No whole number is nearer to a quotient than the one that is taken, and of two that are as near, the
/// even one is taken.
pub proof fn the_nearest_is_taken(n: nat, d: nat)
    requires
        d > 0,
    ensures
        2 * n - d <= 2 * (nearest(n, d) * d) <= 2 * n + d,
        2 * (nearest(n, d) * d) == 2 * n - d || 2 * (nearest(n, d) * d) == 2 * n + d ==> nearest(n, d) % 2 == 0,
{
    let q = n / d;
    let r = n % d;
    vstd::arithmetic::div_mod::lemma_fundamental_div_mod(n as int, d as int);
    assert((q + 1) * d == q * d + d) by (nonlinear_arith);
    assert(d * q == q * d) by (nonlinear_arith);
}

/// A double holds whole numbers exactly up to the fifty-third power of two, and behind it at distances that
/// double with each power.
pub proof fn how_far_doubles_are_apart(n: nat)
    ensures
        n < 9_007_199_254_740_992 ==> grain(n) == 1 && as_double(n) == n,
        n >= 4_503_599_627_370_496 ==> grain(2 * n) == 2 * grain(n) && grain(2 * n + 1) == 2 * grain(n),
{
    assert(2 * n / 2 == n && (2 * n + 1) / 2 == n);
    if n < 9_007_199_254_740_992 {
        assert(n % 1 == 0 && n / 1 == n);
    }
}

/// How a size is written: whole bytes below 1024, and otherwise tenths of the largest unit that it fills,
/// of which no other number of tenths is nearer.
pub proof fn how_a_size_is_written(n: nat)
    ensures
        n < 1024 ==> size_text(n) == digits(n) + " B"@,
        1024 <= n < 9_007_199_254_740_992 ==> exists|t: nat|
            ({
                let (unit, name) = if n < 1_048_576 {
                    (1024int, " KB"@)
                } else if n < 1_073_741_824 {
                    (1_048_576int, " MB"@)
                } else {
                    (1_073_741_824int, " GB"@)
                };
                &&& 20 * n - unit <= 2 * (t * unit) <= 20 * n + unit
                &&& (2 * (t * unit) == 20 * n - unit || 2 * (t * unit) == 20 * n + unit) ==> t % 2 == 0
                &&& size_text(n) == #[trigger] digits(t / 10) + "."@ + digits(t % 10) + name
            }),
{
    if n < 9_007_199_254_740_992 {
        how_far_doubles_are_apart(n);
        let (unit, name) = if n < 1_048_576 {
            (1024int, " KB"@)
        } else if n < 1_073_741_824 {
            (1_048_576int, " MB"@)
        } else {
            (1_073_741_824int, " GB"@)
        };
        if n >= 1024 {
            let t = nearest(10 * n, unit as nat);
            the_nearest_is_taken(10 * n, unit as nat);
            assert(size_text(n) == digits(t / 10) + "."@ + digits(t % 10) + name);
        }
    }
}

/// How a size is written that a double cannot hold exactly: as the gigabytes of the double nearest to it.
pub proof fn how_a_huge_size_is_written(n: nat)
    requires
        n >= 9_007_199_254_740_992,
    ensures
        ({
            let t = nearest(10 * (nearest(n, grain(n)) * grain(n)), 1_073_741_824);
            size_text(n) == digits(t / 10) + "."@ + digits(t % 10) + " GB"@
        }),
{
    grain_bounds(n);
    grain_fits(n);
    let g = grain(n);
    let q = nearest(n, g);
    the_nearest_is_taken(n, g);
    assert(q * g >= 1_073_741_824);
}

proof fn grain_fits(n: nat)
    requires
        n >= 9_007_199_254_740_992,
    ensures
        grain(n) <= n / 1024,
    decreases n,
{
    if n / 2 >= 9_007_199_254_740_992 {
        grain_fits(n / 2);
    } else {
        assert(grain(n / 2) == 1);
    }
}

/// What a run says of itself, word for word.
pub proof fn what_a_run_says(
    up: nat,
    del: nat,
    sent: nat,
    seconds: Seq<char>,
    raw: nat,
    ratio: Seq<char>,
    to: Seq<char>,
)
    ensures
        sync_text(up, del, sent, seconds) == "[rbuild] "@ + ("sync: "@ + digits(up) + " up, "@ + digits(del)
            + " del, "@ + size_text(sent) + " in "@ + seconds + "s"@),
        fetch_text(sent, raw, ratio, to) == "[rbuild] "@ + (size_text(sent) + " on the wire, "@ + size_text(raw)
            + " on disk ("@ + ratio + "x) -> "@ + to),
        upload_text(sent, raw) == "[rbuild] "@ + ("uploading "@ + size_text(sent) + "/"@ + size_text(raw)
            + "   "@),
        marked(to) == "[rbuild] "@ + to,
{
}

} // verus!
