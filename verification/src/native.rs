//! Native check dispatch rules: which names are built in, how a check type
//! tag splits into native and shell checks, threshold grading, the shell
//! check's result contract, and byte formatting for messages.
//!
//! The built-in checks themselves read the machine through outside crates
//! and stay outside this crate; only their common result contract and the
//! dispatch rules live here.

use vstd::prelude::*;

verus! {

use crate::text::{str_eq, has_prefix_at, find_char_from, dec_rep, u64_to_dec, digit_char};
use crate::codec::{first_char, lemma_first_char_at};

/// One native check's outcome: a status of `ok`, `warning` or `error`, an
/// optional human line, and metrics as raw JSON text.
pub struct NativeResult {
    pub status: String,
    pub message: Option<String>,
    pub metrics: String,
}

/// The names of the built-in checks.
pub open spec fn is_native_name(s: Seq<char>) -> bool {
    ||| s == "disk_space"@
    ||| s == "memory"@
    ||| s == "cpu"@
    ||| s == "process"@
    ||| s == "tcp_port"@
    ||| s == "file_exists"@
    ||| s == "http"@
    ||| s == "load_average"@
    ||| s == "network"@
    ||| s == "service"@
    ||| s == "docker_container"@
    ||| s == "file_content"@
    ||| s == "os_info"@
    ||| s == "uptime"@
    ||| s == "dns"@
}

/// Whether this name denotes a built-in check.  Unknown names must fail
/// with an `error` status rather than raise.
pub fn is_native_check_name(name: &str) -> (r: bool)
    ensures
        r == is_native_name(name@),
{
    str_eq(name, "disk_space") || str_eq(name, "memory") || str_eq(name, "cpu") || str_eq(
        name,
        "process",
    ) || str_eq(name, "tcp_port") || str_eq(name, "file_exists") || str_eq(name, "http") || str_eq(
        name,
        "load_average",
    ) || str_eq(name, "network") || str_eq(name, "service") || str_eq(name, "docker_container")
        || str_eq(name, "file_content") || str_eq(name, "os_info") || str_eq(name, "uptime")
        || str_eq(name, "dns")
}

/// How a check type tag is dispatched.
pub enum CheckKind {
    /// A built-in check, by name.
    Native(String),
    /// A shell command from the check's configuration.
    Shell,
}

/// The tag starts with the native marker.
pub open spec fn has_native_prefix(t: Seq<char>) -> bool {
    t.len() >= 7 && t.subrange(0, 7) == "native:"@
}

/// Split a check type tag: `native:<name>` and tags without any colon name
/// a native check; everything else is a shell check.
pub fn classify_check_type(t: &str) -> (r: CheckKind)
    ensures
        match r {
            CheckKind::Native(n) => {
                &&& (has_native_prefix(t@) || first_char(t@, ':') == t@.len())
                &&& n@ == (if has_native_prefix(t@) {
                    t@.skip(7)
                } else {
                    t@
                })
            },
            CheckKind::Shell => !has_native_prefix(t@) && first_char(t@, ':') < t@.len(),
        },
{
    proof {
        reveal_strlit("native:");
    }
    let n = t.unicode_len();
    if has_prefix_at(t, 0, "native:") {
        let suffix = String::from_str(t.substring_char(7, n));
        proof {
            assert(suffix@ =~= t@.skip(7));
        }
        CheckKind::Native(suffix)
    } else {
        let colon = find_char_from(t, 0, ':');
        proof {
            lemma_first_char_at(t@, ':', colon as int);
        }
        if colon == n {
            CheckKind::Native(String::from_str(t))
        } else {
            CheckKind::Shell
        }
    }
}

/// Grade a percentage measured in hundredths of a percent against the
/// documented thresholds: `error` at or over the critical mark, `warning`
/// at or over the warning mark, `ok` below both.
pub fn grade_percent(value_centi: u64, warning_centi: u64, critical_centi: u64) -> (r: String)
    ensures
        r@ == (if value_centi >= critical_centi {
            "error"@
        } else if value_centi >= warning_centi {
            "warning"@
        } else {
            "ok"@
        }),
{
    if value_centi >= critical_centi {
        String::from_str("error")
    } else if value_centi >= warning_centi {
        String::from_str("warning")
    } else {
        String::from_str("ok")
    }
}

/// The decimal rendering of a possibly negative exit code.
pub open spec fn exit_code_rep(n: int) -> Seq<char> {
    if n >= 0 {
        dec_rep(n as nat)
    } else {
        "-"@ + dec_rep((-n) as nat)
    }
}

/// Render an exit code, sign included.
pub fn exit_code_to_dec(n: i32) -> (r: String)
    ensures
        r@ == exit_code_rep(n as int),
{
    if n >= 0 {
        let r = u64_to_dec(n as u64);
        r
    } else {
        proof {
            assert(n as i64 >= i32::MIN as i64);
        }
        let neg: i64 = -(n as i64);
        let mag: u64 = neg as u64;
        let mut out = String::from_str("-");
        let d = u64_to_dec(mag);
        out.append(d.as_str());
        out
    }
}

/// Metrics text of a shell check: its exit code and duration, or the
/// timeout mark and duration when it was cut off.
pub open spec fn shell_metrics_of(exit_code: int, duration_ms: u64, timed_out: bool) -> Seq<char> {
    if timed_out {
        "{\"timeout\":true,\"duration_ms\":"@ + dec_rep(duration_ms as nat) + "}"@
    } else {
        "{\"exit_code\":"@ + exit_code_rep(exit_code) + ",\"duration_ms\":"@ + dec_rep(
            duration_ms as nat,
        ) + "}"@
    }
}

/// The result of a shell check: exit code zero maps to `ok`, any other
/// exit maps to `error`, a timeout maps to `error` with the timeout mark
/// in the metrics.  The message carries standard output when there is
/// any, else standard error, and names the allowance on a timeout.
pub fn shell_check_result(
    exit_code: i32,
    stdout: String,
    stderr: String,
    duration_ms: u64,
    timed_out: bool,
    timeout_secs: u64,
) -> (r: NativeResult)
    ensures
        r.status@ == (if exit_code == 0 && !timed_out {
            "ok"@
        } else {
            "error"@
        }),
        r.metrics@ == shell_metrics_of(exit_code as int, duration_ms, timed_out),
        r.message matches Some(m) && m@ == (if timed_out {
            "check timed out after "@ + dec_rep(timeout_secs as nat) + "s"@
        } else if stdout@.len() == 0 {
            stderr@
        } else {
            stdout@
        }),
{
    let status = if exit_code == 0 && !timed_out {
        String::from_str("ok")
    } else {
        String::from_str("error")
    };
    let dur = u64_to_dec(duration_ms);
    let mut metrics: String;
    if timed_out {
        metrics = String::from_str("{\"timeout\":true,\"duration_ms\":");
        metrics.append(dur.as_str());
        metrics.append("}");
    } else {
        metrics = String::from_str("{\"exit_code\":");
        let code = exit_code_to_dec(exit_code);
        metrics.append(code.as_str());
        metrics.append(",\"duration_ms\":");
        metrics.append(dur.as_str());
        metrics.append("}");
    }
    let message = if timed_out {
        let mut m = String::from_str("check timed out after ");
        let secs = u64_to_dec(timeout_secs);
        m.append(secs.as_str());
        m.append("s");
        m
    } else if stdout.unicode_len() == 0 {
        stderr
    } else {
        stdout
    };
    NativeResult { status, message: Some(message), metrics }
}

/// Two fixed decimal places.
pub open spec fn two_digits(f: int) -> Seq<char>
    recommends
        0 <= f < 100,
{
    seq![digit_char(f / 10), digit_char(f % 10)]
}

/// A scaled amount: whole part, point, two decimals, rounding half up and
/// carrying into the whole part when the decimals round to one hundred.
pub open spec fn scaled_rep(bytes: u64, unit: u64) -> Seq<char>
    recommends
        unit > 0,
{
    let whole = bytes as int / unit as int;
    let frac = ((bytes as int % unit as int) * 100 + unit as int / 2) / unit as int;
    if frac >= 100 {
        dec_rep((whole + 1) as nat) + "."@ + two_digits(0)
    } else {
        dec_rep(whole as nat) + "."@ + two_digits(frac)
    }
}

/// The rendering `format_bytes` produces.
pub open spec fn format_bytes_spec(bytes: u64) -> Seq<char> {
    if bytes >= 1099511627776 {
        scaled_rep(bytes, 1099511627776) + " TB"@
    } else if bytes >= 1073741824 {
        scaled_rep(bytes, 1073741824) + " GB"@
    } else if bytes >= 1048576 {
        scaled_rep(bytes, 1048576) + " MB"@
    } else if bytes >= 1024 {
        scaled_rep(bytes, 1024) + " KB"@
    } else {
        dec_rep(bytes as nat) + " B"@
    }
}

/// Render a byte count for humans: two decimals against the largest unit
/// the count reaches, rounding half up.
pub fn format_bytes(bytes: u64) -> (r: String)
    ensures
        r@ == format_bytes_spec(bytes),
{
    if bytes >= 1099511627776 {
        format_scaled(bytes, 1099511627776, " TB")
    } else if bytes >= 1073741824 {
        format_scaled(bytes, 1073741824, " GB")
    } else if bytes >= 1048576 {
        format_scaled(bytes, 1048576, " MB")
    } else if bytes >= 1024 {
        format_scaled(bytes, 1024, " KB")
    } else {
        let mut out = u64_to_dec(bytes);
        out.append(" B");
        out
    }
}

fn format_scaled(bytes: u64, unit: u64, suffix: &str) -> (r: String)
    requires
        1024 <= unit <= 1099511627776,
    ensures
        r@ == scaled_rep(bytes, unit) + suffix@,
{
    let whole: u64 = bytes / unit;
    let rem: u64 = bytes % unit;
    proof {
        assert(rem < unit) by (nonlinear_arith)
            requires
                unit as int >= 1024,
                rem as int == (bytes as int) % (unit as int),
        ;
    }
    let frac: u64 = (rem * 100 + unit / 2) / unit;
    proof {
        assert((whole as int) <= bytes as int) by (nonlinear_arith)
            requires
                unit as int >= 1,
                whole as int == (bytes as int) / (unit as int),
        ;
        assert((frac as int) <= 100) by (nonlinear_arith)
            requires
                1024 <= unit as int,
                (rem as int) < unit as int,
                frac as int == ((rem as int) * 100 + (unit as int) / 2) / (unit as int),
        ;
        assert((whole as int) + 1 <= u64::MAX) by (nonlinear_arith)
            requires
                whole as int == (bytes as int) / (unit as int),
                unit as int >= 1024,
                bytes as int <= u64::MAX,
        ;
    }
    let mut out: String;
    if frac >= 100 {
        out = u64_to_dec(whole + 1);
        out.append(".");
        out.append(digit_pair(0).as_str());
    } else {
        out = u64_to_dec(whole);
        out.append(".");
        out.append(digit_pair(frac).as_str());
    }
    out.append(suffix);
    proof {
        reveal_strlit(".");
        assert(out@ =~= scaled_rep(bytes, unit) + suffix@);
    }
    out
}

/// Exactly two digits.
fn digit_pair(f: u64) -> (r: String)
    requires
        f < 100,
    ensures
        r@ == two_digits(f as int),
{
    let hi = u64_to_dec(f / 10);
    let lo = u64_to_dec(f % 10);
    let out = hi.concat(lo.as_str());
    proof {
        assert(dec_rep((f / 10) as nat) =~= seq![digit_char(f as int / 10)]);
        assert(dec_rep((f % 10) as nat) =~= seq![digit_char(f as int % 10)]);
        assert(out@ =~= two_digits(f as int));
    }
    out
}

} // verus!
