//! Character-level helpers: ordering, case-insensitive comparison, path
//! basenames, joining and decimal rendering.
use vstd::prelude::*;
use core::cmp::Ordering;
use vstd::string::StringExecFns;

verus! {

/// `a` and `b` agree on their first `i` characters, and at `i` either `a`
/// ends while `b` goes on, or `a` has the smaller character.
pub open spec fn lex_lt_at(a: Seq<char>, b: Seq<char>, i: int) -> bool {
    &&& 0 <= i <= a.len()
    &&& i <= b.len()
    &&& a.subrange(0, i) == b.subrange(0, i)
    &&& ((i == a.len() && i < b.len()) || (i < a.len() && i < b.len() && (a[i] as u32) < (b[i]
        as u32)))
}

/// Lexicographic order on character sequences (the order of `str`).
pub open spec fn lex_lt(a: Seq<char>, b: Seq<char>) -> bool {
    exists|i: int| lex_lt_at(a, b, i)
}

/// The lexicographic order is transitive.
pub proof fn lemma_lex_lt_transitive(a: Seq<char>, b: Seq<char>, c: Seq<char>)
    requires
        lex_lt(a, b),
        lex_lt(b, c),
    ensures
        lex_lt(a, c),
{
    let i = choose|i: int| lex_lt_at(a, b, i);
    let j = choose|j: int| lex_lt_at(b, c, j);
    let k = if i < j {
        i
    } else {
        j
    };
    assert(a.subrange(0, k) =~= b.subrange(0, i).subrange(0, k));
    assert(b.subrange(0, k) =~= b.subrange(0, j).subrange(0, k));
    assert(c.subrange(0, k) =~= c.subrange(0, j).subrange(0, k));
    assert(a.subrange(0, k) =~= c.subrange(0, k));
    if i < j {
        assert(b[i] == b.subrange(0, j)[i]);
        assert(c[i] == c.subrange(0, j)[i]);
    } else if j < i {
        assert(a[j] == a.subrange(0, i)[j]);
        assert(b[j] == b.subrange(0, i)[j]);
    }
    assert(lex_lt_at(a, c, k));
}

/// The lexicographic order is irreflexive.
pub proof fn lemma_lex_lt_irreflexive(a: Seq<char>)
    ensures
        !lex_lt(a, a),
{
}

/// Compares two strings in lexicographic character order.
pub fn compare_str(a: &str, b: &str) -> (r: Ordering)
    ensures
        r == Ordering::Less <==> lex_lt(a@, b@),
        r == Ordering::Equal <==> a@ == b@,
        r == Ordering::Greater <==> lex_lt(b@, a@),
{
    let n = a.unicode_len();
    let m = b.unicode_len();
    let mut i: usize = 0;
    while i < n && i < m
        invariant
            n == a@.len(),
            m == b@.len(),
            i <= n,
            i <= m,
            a@.subrange(0, i as int) =~= b@.subrange(0, i as int),
        decreases n - i,
    {
        let ca = a.get_char(i);
        let cb = b.get_char(i);
        if ca != cb {
            proof {
                assert(a@.subrange(0, i as int) =~= b@.subrange(0, i as int));
            }
            if (ca as u32) < (cb as u32) {
                assert(lex_lt_at(a@, b@, i as int));
                proof {
                    lemma_lex_lt_asymmetric(a@, b@);
                }
                return Ordering::Less;
            } else {
                assert((cb as u32) != (ca as u32));
                assert(lex_lt_at(b@, a@, i as int));
                proof {
                    lemma_lex_lt_asymmetric(b@, a@);
                }
                return Ordering::Greater;
            }
        }
        proof {
            assert(a@.subrange(0, i as int + 1) =~= a@.subrange(0, i as int).push(ca));
            assert(b@.subrange(0, i as int + 1) =~= b@.subrange(0, i as int).push(cb));
        }
        i = i + 1;
    }
    if n < m {
        assert(a@.subrange(0, n as int) =~= a@);
        assert(lex_lt_at(a@, b@, n as int));
        proof {
            lemma_lex_lt_asymmetric(a@, b@);
        }
        Ordering::Less
    } else if m < n {
        assert(b@.subrange(0, m as int) =~= b@);
        assert(lex_lt_at(b@, a@, m as int));
        proof {
            lemma_lex_lt_asymmetric(b@, a@);
        }
        Ordering::Greater
    } else {
        assert(a@ =~= a@.subrange(0, n as int));
        assert(b@ =~= b@.subrange(0, m as int));
        proof {
            lemma_lex_lt_irreflexive(a@);
        }
        Ordering::Equal
    }
}

/// If `a` comes before `b`, then `b` does not come before `a`, and they differ.
pub proof fn lemma_lex_lt_asymmetric(a: Seq<char>, b: Seq<char>)
    requires
        lex_lt(a, b),
    ensures
        !lex_lt(b, a),
        a != b,
{
    if lex_lt(b, a) {
        lemma_lex_lt_transitive(a, b, a);
    }
}

/// Index just past the last `/` of `p`, or 0 when `p` has none.
pub open spec fn basename_start(p: Seq<char>) -> int
    decreases p.len(),
{
    if p.len() == 0 {
        0
    } else if p.last() == '/' {
        p.len() as int
    } else {
        basename_start(p.drop_last())
    }
}

/// The last component of a `/`-separated path: what follows its last `/`.
pub open spec fn basename(p: Seq<char>) -> Seq<char> {
    p.subrange(basename_start(p), p.len() as int)
}

proof fn lemma_basename_start_bounds(p: Seq<char>)
    ensures
        0 <= basename_start(p) <= p.len(),
    decreases p.len(),
{
    if p.len() > 0 {
        lemma_basename_start_bounds(p.drop_last());
    }
}

/// The last component of a `/`-separated path.
pub fn path_basename(p: &str) -> (r: String)
    ensures
        r@ == basename(p@),
{
    let n = p.unicode_len();
    let mut start: usize = 0;
    let mut i: usize = 0;
    while i < n
        invariant
            n == p@.len(),
            i <= n,
            start as int == basename_start(p@.subrange(0, i as int)),
        decreases n - i,
    {
        proof {
            assert(p@.subrange(0, i as int + 1).drop_last() =~= p@.subrange(0, i as int));
        }
        if p.get_char(i) == '/' {
            start = i + 1;
        }
        i = i + 1;
    }
    proof {
        assert(p@.subrange(0, n as int) =~= p@);
        lemma_basename_start_bounds(p@);
    }
    p.substring_char(start, n).to_owned()
}

/// The names joined with `+` between neighbours.
pub open spec fn join_plus(names: Seq<Seq<char>>) -> Seq<char>
    decreases names.len(),
{
    if names.len() == 0 {
        Seq::empty()
    } else if names.len() == 1 {
        names[0]
    } else {
        join_plus(names.drop_last()) + seq!['+'] + names.last()
    }
}

/// Joins the strings with `+` between neighbours.
pub fn join_with_plus(names: &Vec<String>) -> (r: String)
    ensures
        r@ == join_plus(names@.map_values(|s: String| s@)),
{
    let mut out = String::new();
    let mut i: usize = 0;
    while i < names.len()
        invariant
            i <= names.len(),
            out@ == join_plus(names@.subrange(0, i as int).map_values(|s: String| s@)),
        decreases names.len() - i,
    {
        let ghost prev = names@.subrange(0, i as int).map_values(|s: String| s@);
        proof {
            assert(names@.subrange(0, i as int + 1).map_values(|s: String| s@).drop_last()
                =~= prev);
        }
        if i > 0 {
            out.append("+");
            proof {
                reveal_strlit("+");
            }
        } else {
            assert(prev.len() == 0);
        }
        out.append(names[i].as_str());
        proof {
            assert(out@ == join_plus(names@.subrange(0, i as int + 1).map_values(|s: String| s@)));
        }
        i = i + 1;
    }
    assert(names@.subrange(0, names.len() as int) =~= names@);
    out
}

/// The code of a character with ASCII upper-case letters folded to lower case.
pub open spec fn fold_ascii(c: char) -> int {
    if 'A' <= c && c <= 'Z' {
        (c as u32) + 32int
    } else {
        (c as u32) as int
    }
}

/// Equality up to ASCII case.
pub open spec fn eq_ignore_ascii_case_spec(a: Seq<char>, b: Seq<char>) -> bool {
    a.len() == b.len() && forall|i: int| 0 <= i < a.len() ==> fold_ascii(a[i]) == fold_ascii(b[i])
}

/// Compares two strings, ignoring the case of ASCII letters.
pub fn eq_ignore_ascii_case(a: &str, b: &str) -> (r: bool)
    ensures
        r == eq_ignore_ascii_case_spec(a@, b@),
{
    let n = a.unicode_len();
    let m = b.unicode_len();
    if n != m {
        return false;
    }
    let mut i: usize = 0;
    while i < n
        invariant
            n == a@.len(),
            m == b@.len(),
            n == m,
            i <= n,
            forall|k: int| 0 <= k < i ==> fold_ascii(a@[k]) == fold_ascii(b@[k]),
        decreases n - i,
    {
        let ca = a.get_char(i);
        let cb = b.get_char(i);
        let fa: u32 = if 'A' <= ca && ca <= 'Z' {
            ca as u32 + 32
        } else {
            ca as u32
        };
        let fb: u32 = if 'A' <= cb && cb <= 'Z' {
            cb as u32 + 32
        } else {
            cb as u32
        };
        if fa != fb {
            return false;
        }
        i = i + 1;
    }
    true
}

/// The decimal digit for `d < 10`.
pub open spec fn digit_char(d: nat) -> char {
    if d == 0 {
        '0'
    } else if d == 1 {
        '1'
    } else if d == 2 {
        '2'
    } else if d == 3 {
        '3'
    } else if d == 4 {
        '4'
    } else if d == 5 {
        '5'
    } else if d == 6 {
        '6'
    } else if d == 7 {
        '7'
    } else if d == 8 {
        '8'
    } else {
        '9'
    }
}

/// The decimal rendering of `n`, without leading zeros.
pub open spec fn decimal(n: nat) -> Seq<char>
    decreases n,
{
    if n < 10 {
        seq![digit_char(n)]
    } else {
        decimal(n / 10).push(digit_char(n % 10))
    }
}

/// Relies on `String::push`: appends one character.
#[verifier::external_body]
fn push_char(s: &mut String, c: char)
    ensures
        final(s)@ == old(s)@.push(c),
{
    s.push(c)
}

fn digit(d: u128) -> (c: char)
    requires
        d < 10,
    ensures
        c == digit_char(d as nat),
{
    if d == 0 {
        '0'
    } else if d == 1 {
        '1'
    } else if d == 2 {
        '2'
    } else if d == 3 {
        '3'
    } else if d == 4 {
        '4'
    } else if d == 5 {
        '5'
    } else if d == 6 {
        '6'
    } else if d == 7 {
        '7'
    } else if d == 8 {
        '8'
    } else {
        '9'
    }
}

/// Appends the decimal rendering of `n` to `out`.
pub fn push_decimal(out: &mut String, n: u128)
    ensures
        final(out)@ == old(out)@ + decimal(n as nat),
    decreases n,
{
    if n < 10 {
        push_char(out, digit(n));
        assert(old(out)@.push(digit_char(n as nat)) =~= old(out)@ + seq![digit_char(n as nat)]);
    } else {
        push_decimal(out, n / 10);
        push_char(out, digit(n % 10));
        assert(final(out)@ =~= old(out)@ + decimal(n as nat));
    }
}

/// Appends `n` rendered in decimal with at least two digits.
pub fn push_two_digits(out: &mut String, n: u128)
    ensures
        final(out)@ == old(out)@ + (if n < 10 {
            seq!['0']
        } else {
            Seq::empty()
        }) + decimal(n as nat),
{
    if n < 10 {
        push_char(out, '0');
    }
    push_decimal(out, n);
    assert(final(out)@ =~= old(out)@ + (if n < 10 {
        seq!['0']
    } else {
        Seq::empty()
    }) + decimal(n as nat));
}

/// A character that may stand in a file name component as it is: an ASCII
/// letter or digit, `-` or `_`.
pub open spec fn is_safe_char(c: char) -> bool {
    ('a' <= c && c <= 'z') || ('A' <= c && c <= 'Z') || ('0' <= c && c <= '9') || c == '-' || c
        == '_'
}

/// Each unsafe character replaced by `_`.
pub open spec fn sanitized(s: Seq<char>) -> Seq<char> {
    s.map_values(|c: char| if is_safe_char(c) {
        c
    } else {
        '_'
    })
}

/// Makes a string safe to use in a file name: every character other than an
/// ASCII letter or digit, `-` or `_` becomes `_`.
pub fn sanitize_component(value: &str) -> (r: String)
    ensures
        r@ == sanitized(value@),
{
    let n = value.unicode_len();
    let mut out = String::new();
    let mut i: usize = 0;
    while i < n
        invariant
            n == value@.len(),
            i <= n,
            out@ == sanitized(value@.subrange(0, i as int)),
        decreases n - i,
    {
        let c = value.get_char(i);
        let safe = ('a' <= c && c <= 'z') || ('A' <= c && c <= 'Z') || ('0' <= c && c <= '9') || c
            == '-' || c == '_';
        if safe {
            push_char(&mut out, c);
        } else {
            push_char(&mut out, '_');
        }
        proof {
            assert(sanitized(value@.subrange(0, i as int + 1)) =~= sanitized(
                value@.subrange(0, i as int),
            ).push(if is_safe_char(c) {
                c
            } else {
                '_'
            }));
        }
        i = i + 1;
    }
    assert(value@.subrange(0, n as int) =~= value@);
    out
}

/// Each `-` replaced by `_`.
pub open spec fn dashes_to_underscores(s: Seq<char>) -> Seq<char> {
    s.map_values(|c: char| if c == '-' {
        '_'
    } else {
        c
    })
}

fn push_replacing_dashes(out: &mut String, value: &str)
    ensures
        final(out)@ == old(out)@ + dashes_to_underscores(value@),
{
    let n = value.unicode_len();
    let mut i: usize = 0;
    let ghost start = out@;
    while i < n
        invariant
            n == value@.len(),
            i <= n,
            out@ == start + dashes_to_underscores(value@.subrange(0, i as int)),
        decreases n - i,
    {
        let c = value.get_char(i);
        if c == '-' {
            push_char(out, '_');
        } else {
            push_char(out, c);
        }
        proof {
            assert(dashes_to_underscores(value@.subrange(0, i as int + 1)) =~= dashes_to_underscores(
                value@.subrange(0, i as int),
            ).push(if c == '-' {
                '_'
            } else {
                c
            }));
        }
        i = i + 1;
    }
    assert(value@.subrange(0, n as int) =~= value@);
}

/// The default file name of a report graph:
/// `battery_monitor_<window>_<timestamp>_<zone>.png`, with `-` in the window
/// label turned into `_` and the zone name made safe for a file name.
pub fn graph_file_name(timeframe: &str, timestamp: &str, tz_label: &str) -> (r: String)
    ensures
        r@ == "battery_monitor_"@ + dashes_to_underscores(timeframe@) + "_"@ + timestamp@ + "_"@
            + sanitized(tz_label@) + ".png"@,
{
    let mut out = String::from_str("battery_monitor_");
    push_replacing_dashes(&mut out, timeframe);
    out.append("_");
    out.append(timestamp);
    out.append("_");
    let tz = sanitize_component(tz_label);
    out.append(tz.as_str());
    out.append(".png");
    proof {
        reveal_strlit("battery_monitor_");
        reveal_strlit("_");
        reveal_strlit(".png");
        assert(out@ =~= "battery_monitor_"@ + dashes_to_underscores(timeframe@) + "_"@ + timestamp@
            + "_"@ + sanitized(tz_label@) + ".png"@);
    }
    out
}

} // verus!
