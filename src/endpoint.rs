use vstd::prelude::*;
use vstd::string::StrSliceExecFns;
use vstd::string::StringExecFns;

verus! {

/// The shape a direct routing token must have: `<host>-<port>`.
pub const TOKEN_PATTERN: &'static str = "^.+-\\d+$";

/// An outbound destination.
#[derive(Debug, PartialEq, Eq)]
pub struct Endpoint {
    pub host: String,
    pub port: u16,
}

impl View for Endpoint {
    type V = (Seq<char>, u16);

    open spec fn view(&self) -> (Seq<char>, u16) {
        (self.host@, self.port)
    }
}

pub open spec fn is_digit(c: char) -> bool {
    '0' <= c && c <= '9'
}

pub open spec fn all_digits(s: Seq<char>) -> bool {
    forall|i: int| 0 <= i < s.len() ==> is_digit(#[trigger] s[i])
}

pub open spec fn no_newline(s: Seq<char>) -> bool {
    forall|i: int| 0 <= i < s.len() ==> #[trigger] s[i] != '\n'
}

/// The decimal value of a string of ASCII digits.
pub open spec fn digits_value(s: Seq<char>) -> nat
    decreases s.len(),
{
    if s.len() == 0 {
        0
    } else {
        digits_value(s.drop_last()) * 10 + ((s.last() as u32) - ('0' as u32)) as nat
    }
}

/// Index of the last occurrence of `c` in `s`, or -1.
pub open spec fn last_index_of(s: Seq<char>, c: char) -> int
    decreases s.len(),
{
    if s.len() == 0 {
        -1
    } else if s.last() == c {
        s.len() - 1
    } else {
        last_index_of(s.drop_last(), c)
    }
}

/// The port written in `s`, when `s` is one or more ASCII digits of value at most 65535.
pub open spec fn port_of(s: Seq<char>) -> Option<u16> {
    if s.len() > 0 && all_digits(s) && digits_value(s) <= 65535 {
        Some(digits_value(s) as u16)
    } else {
        None
    }
}

/// `t` has the form `<non-empty host>-<ASCII digits>`, with no newline anywhere.
pub open spec fn has_direct_shape(t: Seq<char>) -> bool {
    let i = last_index_of(t, '-');
    &&& no_newline(t)
    &&& 1 <= i < t.len() - 1
    &&& all_digits(t.subrange(i + 1, t.len() as int))
}

/// What a direct token resolves to: the token split at its last `-`, or the fallback.
pub open spec fn direct_target(t: Seq<char>, fallback: (Seq<char>, u16)) -> (Seq<char>, u16) {
    let i = last_index_of(t, '-');
    if has_direct_shape(t) && port_of(t.subrange(i + 1, t.len() as int)) is Some {
        (t.subrange(0, i), port_of(t.subrange(i + 1, t.len() as int))->Some_0)
    } else {
        fallback
    }
}

/// `s` with every `:` written as `-`.
pub open spec fn colons_to_dashes(s: Seq<char>) -> Seq<char> {
    s.map_values(|c: char| if c == ':' { '-' } else { c })
}

/// Relies on regex::Regex::new and regex::Regex::is_match for the token pattern:
/// there `.` is any character but a newline and `\d` any Unicode decimal digit,
/// which takes in the ASCII digits and neither `-` nor a newline.
#[verifier::external_body]
fn pattern_accepts(pattern: &str, token: &str) -> (r: bool)
    requires
        pattern@ == TOKEN_PATTERN@,
    ensures
        has_direct_shape(token@) ==> r,
        r ==> no_newline(token@) && 1 <= last_index_of(token@, '-') < token@.len() - 1,
{
    match regex::Regex::new(pattern) {
        Ok(re) => re.is_match(token),
        Err(_) => false,
    }
}

proof fn lemma_last_index_bounds(s: Seq<char>, c: char)
    ensures
        -1 <= last_index_of(s, c) < s.len(),
        last_index_of(s, c) >= 0 ==> s[last_index_of(s, c)] == c,
    decreases s.len(),
{
    if s.len() > 0 && s.last() != c {
        lemma_last_index_bounds(s.drop_last(), c);
    }
}

proof fn lemma_value_prefix(s: Seq<char>, k: int)
    requires
        all_digits(s),
        0 <= k <= s.len(),
    ensures
        digits_value(s.subrange(0, k)) <= digits_value(s),
    decreases s.len(),
{
    if k < s.len() {
        assert(s.drop_last().subrange(0, k) =~= s.subrange(0, k));
        lemma_value_prefix(s.drop_last(), k);
    } else {
        assert(s.subrange(0, k) =~= s);
    }
}

/// Index of the last `-` of `s`, if any.
fn last_dash(s: &str) -> (r: Option<usize>)
    ensures
        match r {
            Some(i) => i as int == last_index_of(s@, '-') && i < s@.len() <= usize::MAX,
            None => last_index_of(s@, '-') == -1,
        },
{
    let n = s.unicode_len();
    let mut i: usize = n;
    assert(s@.subrange(0, n as int) =~= s@);
    while i > 0
        invariant
            i <= n == s@.len(),
            last_index_of(s@, '-') == last_index_of(s@.subrange(0, i as int), '-'),
        decreases i,
    {
        let c = s.get_char(i - 1);
        assert(s@.subrange(0, i as int).drop_last() =~= s@.subrange(0, i - 1));
        if c == '-' {
            return Some(i - 1);
        }
        i = i - 1;
    }
    None
}

/// Reads the characters of `s` from `from` on as a port number.
pub fn parse_port(s: &str, from: usize) -> (r: Option<u16>)
    requires
        from <= s@.len(),
    ensures
        r == port_of(s@.subrange(from as int, s@.len() as int)),
{
    let n = s.unicode_len();
    let ghost t = s@.subrange(from as int, n as int);
    if from == n {
        return None;
    }
    let mut acc: u32 = 0;
    let mut i: usize = from;
    while i < n
        invariant
            from <= i <= n == s@.len(),
            t == s@.subrange(from as int, n as int),
            all_digits(t.subrange(0, i - from)),
            acc as nat == digits_value(t.subrange(0, i - from)),
            acc <= 65535,
        decreases n - i,
    {
        let c = s.get_char(i);
        let ghost next = t.subrange(0, i - from + 1);
        assert(next.drop_last() =~= t.subrange(0, i - from));
        if c < '0' || c > '9' {
            assert(!is_digit(t[i - from]));
            return None;
        }
        let d: u32 = (c as u32) - ('0' as u32);
        let v: u32 = acc * 10 + d;
        assert(all_digits(next));
        if v > 65535 {
            proof {
                if all_digits(t) {
                    lemma_value_prefix(t, i - from + 1);
                }
            }
            return None;
        }
        acc = v;
        i = i + 1;
    }
    assert(t.subrange(0, n - from) =~= t);
    Some(acc as u16)
}

/// Resolves a direct `<host>-<port>` token, or gives back `fallback`.
pub fn resolve_direct(token: &str, fallback: Endpoint) -> (r: Endpoint)
    ensures
        r@ == direct_target(token@, fallback@),
{
    if !pattern_accepts(TOKEN_PATTERN, token) {
        return fallback;
    }
    match last_dash(token) {
        None => fallback,
        Some(i) => {
            proof {
                lemma_last_index_bounds(token@, '-');
            }
            match parse_port(token, i + 1) {
                None => fallback,
                Some(port) => {
                    let host = String::from_str(token.substring_char(0, i));
                    Endpoint { host, port }
                },
            }
        },
    }
}

/// `s` with every `:` replaced by `-`.
pub fn replace_colons(s: &str) -> (r: String)
    ensures
        r@ == colons_to_dashes(s@),
{
    let n = s.unicode_len();
    let mut out = String::new();
    let mut i: usize = 0;
    while i < n
        invariant
            i <= n == s@.len(),
            out@ == colons_to_dashes(s@.subrange(0, i as int)),
        decreases n - i,
    {
        let c = s.get_char(i);
        if c == ':' {
            out.append("-");
        } else {
            out.append(s.substring_char(i, i + 1));
        }
        proof {
            reveal_strlit("-");
        }
        assert(colons_to_dashes(s@.subrange(0, i + 1)) =~= colons_to_dashes(s@.subrange(0, i as int))
            + colons_to_dashes(s@.subrange(i as int, i + 1)));
        i = i + 1;
    }
    assert(s@.subrange(0, n as int) =~= s@);
    out
}

} // verus!
