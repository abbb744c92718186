//! Settings: command-line flags, their environment fallbacks, and defaults.

use vstd::prelude::*;
use crate::tags::views;
use crate::text::chars_of;

verus! {

broadcast use vstd::string::group_string_axioms;

/// The position of the first element of `xs` equal to `x`, looking from `from` on.
pub open spec fn first_index(xs: Seq<Seq<char>>, x: Seq<char>, from: int) -> Option<int>
    decreases xs.len() - from,
{
    if from < 0 || from >= xs.len() {
        None
    } else if xs[from] == x {
        Some(from)
    } else {
        first_index(xs, x, from + 1)
    }
}

/// The value given to flag `name`: the argument right after its first occurrence.
pub open spec fn arg_value(args: Seq<Seq<char>>, name: Seq<char>) -> Option<Seq<char>> {
    match first_index(args, name, 0) {
        Some(i) => if i + 1 < args.len() {
            Some(args[i + 1])
        } else {
            None
        },
        None => None,
    }
}

/// The characters of an optional string.
pub open spec fn opt_view(o: Option<String>) -> Option<Seq<char>> {
    match o {
        Some(s) => Some(s@),
        None => None,
    }
}

/// The argument that follows the first occurrence of `name` in `args`.
pub fn arg(args: &[String], name: &str) -> (r: Option<String>)
    ensures
        opt_view(r) == arg_value(views(args@), name@),
{
    let wanted = name.to_owned();
    let n = args.len();
    let ghost xs = views(args@);
    let mut i: usize = 0;
    while i < n
        invariant
            n == args@.len(),
            xs == views(args@),
            wanted@ == name@,
            i <= n,
            first_index(xs, name@, 0) == first_index(xs, name@, i as int),
        decreases n - i,
    {
        if args[i] == wanted {
            assert(xs[i as int] == name@);
            if i + 1 < n {
                return Some(args[i + 1].clone());
            } else {
                return None;
            }
        }
        i = i + 1;
    }
    None
}

/// The value of a decimal digit (0 for any other character).
pub open spec fn digit_of(c: char) -> nat {
    if '0' <= c <= '9' {
        (c as int - '0' as int) as nat
    } else {
        0
    }
}

/// The value of a string of decimal digits.
pub open spec fn digits_value(s: Seq<char>) -> nat
    decreases s.len(),
{
    if s.len() == 0 {
        0
    } else {
        digits_value(s.drop_last()) * 10 + digit_of(s.last())
    }
}

/// Every character of `s` is an ASCII decimal digit.
pub open spec fn all_digits(s: Seq<char>) -> bool {
    forall|i: int| 0 <= i < s.len() ==> '0' <= #[trigger] s[i] <= '9'
}

/// A port number as std reads a `u16` from text: an optional `+`, then one or
/// more decimal digits whose value fits in 16 bits; anything else is no number.
pub open spec fn port_number(s: Seq<char>) -> Option<u16> {
    let digits = if s.len() > 0 && s[0] == '+' {
        s.drop_first()
    } else {
        s
    };
    if digits.len() > 0 && all_digits(digits) && digits_value(digits) <= 65535 {
        Some(digits_value(digits) as u16)
    } else {
        None
    }
}

proof fn lemma_digits_value_prefix(s: Seq<char>, k: int)
    requires
        0 <= k <= s.len(),
        all_digits(s),
    ensures
        digits_value(s.take(k)) <= digits_value(s),
    decreases s.len() - k,
{
    if k == s.len() {
        assert(s.take(k) =~= s);
    } else {
        lemma_digits_value_prefix(s, k + 1);
        assert(s.take(k + 1).drop_last() =~= s.take(k));
    }
}

/// Reads a port number from text.
pub fn parse_port(text: &str) -> (r: Option<u16>)
    ensures
        r == port_number(text@),
{
    let cs = chars_of(text);
    let start: usize = if cs.len() > 0 && cs[0] == '+' {
        1
    } else {
        0
    };
    let ghost digits = if cs@.len() > 0 && cs@[0] == '+' {
        cs@.drop_first()
    } else {
        cs@
    };
    assert(digits =~= cs@.skip(start as int));
    if start == cs.len() {
        return None;
    }
    let mut value: u32 = 0;
    let mut i = start;
    while i < cs.len()
        invariant
            cs@ == text@,
            start < cs@.len(),
            start == 0 || (start == 1 && cs@[0] == '+'),
            start == 0 ==> !(cs@.len() > 0 && cs@[0] == '+'),
            start <= i <= cs@.len(),
            digits == cs@.skip(start as int),
            forall|q: int| start <= q < i ==> '0' <= #[trigger] cs@[q] <= '9',
            value == digits_value(cs@.subrange(start as int, i as int)),
            value <= 65535,
        decreases cs@.len() - i,
    {
        let c = cs[i];
        if !('0' <= c && c <= '9') {
            proof {
                assert(digits[i - start] == c);
                assert(!all_digits(digits));
            }
            return None;
        }
        proof {
            assert(cs@.subrange(start as int, i + 1).drop_last() =~= cs@.subrange(
                start as int,
                i as int,
            ));
        }
        value = value * 10 + (c as u32 - '0' as u32);
        i = i + 1;
        assert(value == digits_value(cs@.subrange(start as int, i as int)));
        if value > 65535 {
            proof {
                if all_digits(digits) {
                    lemma_digits_value_prefix(digits, i - start);
                    assert(digits.take(i - start) =~= cs@.subrange(start as int, i as int));
                    assert(digits_value(digits) > 65535);
                }
                assert(digits == (if text@.len() > 0 && text@[0] == '+' { text@.drop_first() } else { text@ }));
                assert(port_number(text@) is None);
            }
            return None;
        }
    }
    assert(cs@.subrange(start as int, cs@.len() as int) =~= digits);
    Some(value as u16)
}

/// `s` without the `/` characters at its end.
pub open spec fn without_trailing_slashes(s: Seq<char>) -> Seq<char>
    decreases s.len(),
{
    if s.len() > 0 && s.last() == '/' {
        without_trailing_slashes(s.drop_last())
    } else {
        s
    }
}

/// Trimming leaves a prefix of the text that does not end in `/`.
pub proof fn lemma_without_trailing_slashes(s: Seq<char>)
    ensures
        without_trailing_slashes(s).len() <= s.len(),
        without_trailing_slashes(s) == s.take(without_trailing_slashes(s).len() as int),
        without_trailing_slashes(s).len() == 0 || without_trailing_slashes(s).last() != '/',
    decreases s.len(),
{
    if s.len() > 0 && s.last() == '/' {
        lemma_without_trailing_slashes(s.drop_last());
        let t = without_trailing_slashes(s.drop_last());
        assert(s.drop_last().take(t.len() as int) =~= s.take(t.len() as int));
    } else {
        assert(s.take(s.len() as int) =~= s);
    }
}

/// `url` without the `/` characters at its end.
pub fn trim_trailing_slashes(url: &str) -> (r: String)
    ensures
        r@ == without_trailing_slashes(url@),
        r@.len() == 0 || r@.last() != '/',
{
    proof {
        lemma_without_trailing_slashes(url@);
    }
    let cs = chars_of(url);
    let mut end = cs.len();
    assert(cs@.take(end as int) =~= cs@);
    while end > 0 && cs[end - 1] == '/'
        invariant
            end <= cs@.len(),
            without_trailing_slashes(url@) == without_trailing_slashes(cs@.take(end as int)),
            cs@ == url@,
        decreases end,
    {
        assert(cs@.take(end as int).drop_last() =~= cs@.take(end - 1));
        end = end - 1;
    }
    assert(cs@.take(end as int) =~= cs@.subrange(0, end as int));
    crate::text::string_of(vstd::slice::slice_subrange(cs.as_slice(), 0, end))
}

/// The settings the environment may give in place of flags.
pub struct EnvSettings {
    pub port: Option<String>,
    pub store_dir: Option<String>,
    pub public_url: Option<String>,
}

/// The proxy's settings.
pub struct Config {
    pub port: u16,
    pub dir: String,
    pub ttl_secs: u64,
    pub public_url: String,
}

/// A flag's value, else the environment's.
pub open spec fn setting(flag: Option<Seq<char>>, env: Option<String>) -> Option<Seq<char>> {
    match flag {
        Some(v) => Some(v),
        None => opt_view(env),
    }
}

/// The settings from the flags `--port`, `--dir` and `--public-url`, each
/// falling back to the environment: the port when it reads as a number, else
/// 3000; the store directory, else `./store`; the public URL without trailing
/// slashes, else empty. The lifetime of captures is given in seconds.
pub fn load_config(args: &[String], env: EnvSettings, ttl_secs: u64) -> (cfg: Config)
    ensures
        cfg.port == match setting(arg_value(views(args@), "--port"@), env.port) {
            Some(s) => match port_number(s) {
                Some(p) => p,
                None => 3000,
            },
            None => 3000,
        },
        cfg.dir@ == match setting(arg_value(views(args@), "--dir"@), env.store_dir) {
            Some(s) => s,
            None => "./store"@,
        },
        cfg.ttl_secs == ttl_secs,
        cfg.public_url@ == match setting(
            arg_value(views(args@), "--public-url"@),
            env.public_url,
        ) {
            Some(s) => without_trailing_slashes(s),
            None => Seq::<char>::empty(),
        },
{
    let port_text = match arg(args, "--port") {
        Some(v) => Some(v),
        None => env.port,
    };
    let port = match port_text {
        Some(t) => match parse_port(t.as_str()) {
            Some(p) => p,
            None => 3000,
        },
        None => 3000,
    };
    let dir = match arg(args, "--dir") {
        Some(v) => v,
        None => match env.store_dir {
            Some(v) => v,
            None => String::from_str("./store"),
        },
    };
    let public_text = match arg(args, "--public-url") {
        Some(v) => Some(v),
        None => env.public_url,
    };
    let public_url = match public_text {
        Some(t) => trim_trailing_slashes(t.as_str()),
        None => String::new(),
    };
    Config { port, dir, ttl_secs, public_url }
}

} // verus!
