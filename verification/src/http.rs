//! The plain-text line protocol spoken with the upstream peer.
//!
//! The client sends one request whose path encodes a delay in milliseconds
//! and an identifier, such as `/3000/request-0`, and then reads the response
//! until the peer closes. `get_req` builds the request bytes; the path
//! grammar the peer applies — a leading slash, a non-empty run of digits,
//! a second slash, then an identifier containing no slash — is stated as a
//! spec and decided by `parse_delay_path`.

use vstd::prelude::*;
use vstd::string::*;
use vstd::utf8::encode_utf8;

verus! {

/// The full request text for a given path.
pub open spec fn request_text(path: Seq<char>) -> Seq<char> {
    "GET "@ + path + " HTTP/1.1\r\nHost: localhost\r\nConnection: close\r\n\r\n"@
}

/// The request on the wire: the request text, UTF-8 encoded.
pub open spec fn request_bytes(path: Seq<char>) -> Seq<u8> {
    encode_utf8(request_text(path))
}

/// Builds the one request sent on a fresh connection: a GET for `path`
/// that asks the peer to close once the response is written.
pub fn get_req(path: &str) -> (r: Vec<u8>)
    ensures
        r@ == request_bytes(path@),
{
    let mut s = String::from_str("GET ");
    s.append(path);
    s.append(" HTTP/1.1\r\nHost: localhost\r\nConnection: close\r\n\r\n");
    proof {
        assert(s@ =~= request_text(path@));
    }
    s.as_str().as_bytes_vec()
}

/// Whether `c` is a decimal digit.
pub open spec fn is_digit(c: char) -> bool {
    48 <= c as u32 <= 57
}

/// The value of one decimal digit.
pub open spec fn digit_val(c: char) -> nat
    recommends
        is_digit(c),
{
    (c as u32 - 48) as nat
}

/// Whether every character of `s` is a decimal digit.
pub open spec fn all_digits(s: Seq<char>) -> bool {
    forall|i: int| 0 <= i < s.len() ==> is_digit(s[i])
}

/// The number a run of decimal digits denotes, most significant first.
pub open spec fn digits_val(s: Seq<char>) -> nat
    decreases s.len(),
{
    if s.len() == 0 {
        0
    } else {
        digits_val(s.drop_last()) * 10 + digit_val(s.last())
    }
}

/// The position of the first slash at or after `from`, if any.
pub open spec fn find_slash(s: Seq<char>, from: int) -> Option<int>
    decreases s.len() - from,
{
    if from < 0 || from >= s.len() {
        None
    } else if s[from] == '/' {
        Some(from)
    } else {
        find_slash(s, from + 1)
    }
}

/// The two captures of the path grammar `/<digits>/<id>`: the digit run and
/// the identifier, or `None` where the path does not fit the shape — no
/// leading slash, an empty or non-digit delay field, a missing second
/// slash, or a slash inside the identifier.
pub open spec fn path_parts(s: Seq<char>) -> Option<(Seq<char>, Seq<char>)> {
    if s.len() < 1 || s[0] != '/' {
        None
    } else {
        match find_slash(s, 1) {
            None => None,
            Some(j) => if j == 1 {
                None
            } else if !all_digits(s.subrange(1, j)) {
                None
            } else if find_slash(s, j + 1) is Some {
                None
            } else {
                Some((s.subrange(1, j), s.subrange(j + 1, s.len() as int)))
            },
        }
    }
}

/// What a request path asks for, as the peer reads it.
#[derive(Debug)]
pub enum PathQuery {
    /// A well-formed path: delay this many milliseconds, then answer and
    /// close; `id` is echoed in the response.
    Delayed { delay_ms: u64, id: String },
    /// The path fits the grammar but the delay value does not fit the
    /// delay's integer width.
    InvalidDelay,
    /// The path does not fit the grammar.
    InvalidPath,
}

/// Decides the path grammar and reads the delay value.
///
/// Returns `Delayed` exactly on paths the grammar admits whose digit run
/// denotes a representable number; `InvalidDelay` exactly on admitted paths
/// whose number is too large; `InvalidPath` on everything else.
pub fn parse_delay_path(path: &str) -> (r: PathQuery)
    ensures
        path_parts(path@) is None <==> r is InvalidPath,
        path_parts(path@) matches Some(p) ==> {
            &&& (digits_val(p.0) > u64::MAX <==> r is InvalidDelay)
            &&& (digits_val(p.0) <= u64::MAX ==> (r matches PathQuery::Delayed { delay_ms, id } ==>
            delay_ms == digits_val(p.0) && id@ == p.1))
            &&& (digits_val(p.0) <= u64::MAX ==> r is Delayed)
        },
{
    let n = path.unicode_len();
    if n == 0 || path.get_char(0) != '/' {
        return PathQuery::InvalidPath;
    }
    let mut j: usize = 1;
    while j < n && path.get_char(j) != '/'
        invariant
            1 <= j <= n,
            n == path@.len(),
            forall|k: int| 1 <= k < j ==> path@[k] != '/',
        decreases n - j,
    {
        j += 1;
    }
    if j == n {
        proof {
            lemma_find_slash_miss(path@, 1);
        }
        return PathQuery::InvalidPath;
    }
    proof {
        lemma_find_slash_hit(path@, 1, j as int);
    }
    if j == 1 {
        return PathQuery::InvalidPath;
    }
    let mut acc: u64 = 0;
    let mut overflowed = false;
    let mut k: usize = 1;
    while k < j
        invariant
            1 <= k <= j < n,
            n == path@.len(),
            path@[0] == '/',
            1 < j,
            find_slash(path@, 1) == Some(j as int),
            forall|i: int| 1 <= i < k ==> is_digit(path@[i]),
            !overflowed ==> acc == digits_val(path@.subrange(1, k as int)),
            overflowed ==> digits_val(path@.subrange(1, k as int)) > u64::MAX,
        decreases j - k,
    {
        let c = path.get_char(k);
        let cu = c as u32;
        if cu < 48 || cu > 57 {
            proof {
                assert(!is_digit(path@[k as int]));
                assert(!all_digits(path@.subrange(1, j as int))) by {
                    assert(path@.subrange(1, j as int)[k - 1] == path@[k as int]);
                }
            }
            return PathQuery::InvalidPath;
        }
        let d = (cu - 48) as u64;
        proof {
            assert(path@.subrange(1, k as int + 1).drop_last() =~= path@.subrange(1, k as int));
            assert(path@.subrange(1, k as int + 1).last() == path@[k as int]);
        }
        if !overflowed {
            let stepped = match acc.checked_mul(10) {
                Some(m) => m.checked_add(d),
                None => None,
            };
            match stepped {
                Some(v) => {
                    acc = v;
                },
                None => {
                    overflowed = true;
                },
            }
        }
        k += 1;
    }
    proof {
        assert(all_digits(path@.subrange(1, j as int))) by {
            assert forall|i: int| 0 <= i < j - 1 implies is_digit(
                path@.subrange(1, j as int)[i],
            ) by {
                assert(path@.subrange(1, j as int)[i] == path@[i + 1]);
            }
        }
    }
    let mut m: usize = j + 1;
    while m < n
        invariant
            j + 1 <= m <= n,
            n == path@.len(),
            1 < j < n,
            path@[0] == '/',
            find_slash(path@, 1) == Some(j as int),
            all_digits(path@.subrange(1, j as int)),
            forall|k2: int| j + 1 <= k2 < m ==> path@[k2] != '/',
        decreases n - m,
    {
        if path.get_char(m) == '/' {
            proof {
                lemma_find_slash_hit(path@, j as int + 1, m as int);
            }
            return PathQuery::InvalidPath;
        }
        m += 1;
    }
    proof {
        lemma_find_slash_miss(path@, j as int + 1);
    }
    if overflowed {
        return PathQuery::InvalidDelay;
    }
    let id = path.substring_char(j + 1, n).to_owned();
    PathQuery::Delayed { delay_ms: acc, id }
}

/// The digit character for a value below ten.
pub open spec fn digit_char(d: nat) -> char {
    if d == 0 {
        '0'
    } else if d == 1 {
        '1'
    } else if d == 2 {
        '2'
    } else if d == 3 {
        '3'
    } else if d == 4 {
        '4'
    } else if d == 5 {
        '5'
    } else if d == 6 {
        '6'
    } else if d == 7 {
        '7'
    } else if d == 8 {
        '8'
    } else {
        '9'
    }
}

/// The decimal rendering of `n`, most significant digit first.
pub open spec fn dec_chars(n: nat) -> Seq<char>
    decreases n,
{
    if n < 10 {
        seq![digit_char(n)]
    } else {
        dec_chars(n / 10).push(digit_char(n % 10))
    }
}

/// The single-character string for one decimal digit.
fn digit_str(d: u64) -> (r: &'static str)
    requires
        d < 10,
    ensures
        r@ == seq![digit_char(d as nat)],
{
    proof {
        reveal_strlit("0");
        reveal_strlit("1");
        reveal_strlit("2");
        reveal_strlit("3");
        reveal_strlit("4");
        reveal_strlit("5");
        reveal_strlit("6");
        reveal_strlit("7");
        reveal_strlit("8");
        reveal_strlit("9");
    }
    let r = match d {
        0 => "0",
        1 => "1",
        2 => "2",
        3 => "3",
        4 => "4",
        5 => "5",
        6 => "6",
        7 => "7",
        8 => "8",
        _ => "9",
    };
    proof {
        assert(r@ =~= seq![digit_char(d as nat)]);
    }
    r
}

/// Renders `n` in decimal, most significant digit first, with no sign and
/// no leading zero.
pub fn format_u64(n: u64) -> (r: String)
    ensures
        r@ == dec_chars(n as nat),
    decreases n,
{
    if n < 10 {
        String::from_str(digit_str(n))
    } else {
        let mut s = format_u64(n / 10);
        s.append(digit_str(n % 10));
        proof {
            assert(s@ =~= dec_chars(n as nat));
        }
        s
    }
}

/// The request path that asks the peer to wait `delay_ms` milliseconds
/// before answering request number `index`.
pub open spec fn delay_path_text(delay_ms: nat, index: nat) -> Seq<char> {
    seq!['/'] + dec_chars(delay_ms) + seq!['/'] + "request-"@ + dec_chars(index)
}

/// Builds the request path `/<delay>/request-<index>`.
pub fn request_path(delay_ms: u64, index: u64) -> (r: String)
    ensures
        r@ == delay_path_text(delay_ms as nat, index as nat),
{
    proof {
        reveal_strlit("/");
        reveal_strlit("/request-");
        reveal_strlit("request-");
    }
    let mut s = String::from_str("/");
    s.append(format_u64(delay_ms).as_str());
    s.append("/request-");
    s.append(format_u64(index).as_str());
    proof {
        assert(s@ =~= delay_path_text(delay_ms as nat, index as nat));
    }
    s
}

/// A decimal rendering is a non-empty digit run and reads back as the
/// number it renders.
pub proof fn lemma_dec_chars_value(n: nat)
    ensures
        dec_chars(n).len() >= 1,
        all_digits(dec_chars(n)),
        digits_val(dec_chars(n)) == n,
    decreases n,
{
    if n < 10 {
        lemma_digit_char_val(n);
        let s = dec_chars(n);
        assert(s.drop_last() =~= Seq::<char>::empty());
        assert(digits_val(Seq::<char>::empty()) == 0);
        assert(digits_val(s) == digits_val(s.drop_last()) * 10 + digit_val(s.last()));
    } else {
        lemma_dec_chars_value(n / 10);
        lemma_digit_char_val(n % 10);
        let s = dec_chars(n);
        assert(s.drop_last() =~= dec_chars(n / 10));
        assert(s.last() == digit_char(n % 10));
        assert(digits_val(s) == digits_val(s.drop_last()) * 10 + digit_val(s.last()));
        assert(n / 10 * 10 + n % 10 == n);
        assert forall|i: int| 0 <= i < s.len() implies is_digit(s[i]) by {
            if i < s.len() - 1 {
                assert(s[i] == dec_chars(n / 10)[i]);
            }
        }
    }
}

/// A digit character reads back as the value it renders.
proof fn lemma_digit_char_val(d: nat)
    requires
        d < 10,
    ensures
        is_digit(digit_char(d)),
        digit_val(digit_char(d)) == d,
{
}

/// Round trip of the path protocol: a path built by `request_path` fits the
/// grammar that `parse_delay_path` decides, its delay field reads back as
/// exactly the delay it was built from, and its identifier is
/// `request-<index>`.
pub proof fn lemma_request_path_round_trip(delay_ms: u64, index: u64)
    ensures
        path_parts(delay_path_text(delay_ms as nat, index as nat)) matches Some(p)
            && p.0 == dec_chars(delay_ms as nat)
            && p.1 == "request-"@ + dec_chars(index as nat),
        digits_val(dec_chars(delay_ms as nat)) == delay_ms,
{
    reveal_strlit("request-");
    lemma_dec_chars_value(delay_ms as nat);
    lemma_dec_chars_value(index as nat);
    let s = delay_path_text(delay_ms as nat, index as nat);
    let d = dec_chars(delay_ms as nat);
    let id = "request-"@ + dec_chars(index as nat);
    let j = 1 + d.len() as int;
    assert(s.len() == j + 1 + id.len());
    assert(s[0] == '/');
    assert(s[j] == '/');
    assert forall|k: int| 1 <= k < j implies s[k] != '/' by {
        assert(s[k] == d[k - 1]);
        assert(is_digit(d[k - 1]));
    }
    lemma_find_slash_hit(s, 1, j);
    assert(s.subrange(1, j) =~= d);
    assert forall|k: int| j + 1 <= k < s.len() implies s[k] != '/' by {
        assert(s[k] == id[k - (j + 1)]);
        if k - (j + 1) >= 8 {
            assert(id[k - (j + 1)] == dec_chars(index as nat)[k - (j + 1) - 8]);
            assert(is_digit(id[k - (j + 1)]));
        }
    }
    lemma_find_slash_miss(s, j + 1);
    assert(s.subrange(j + 1, s.len() as int) =~= id);
}

/// `find_slash` finds a slash every position up to which is slash-free.
proof fn lemma_find_slash_hit(s: Seq<char>, from: int, j: int)
    requires
        0 <= from <= j < s.len(),
        s[j] == '/',
        forall|k: int| from <= k < j ==> s[k] != '/',
    ensures
        find_slash(s, from) == Some(j),
    decreases j - from,
{
    if from < j {
        lemma_find_slash_hit(s, from + 1, j);
    }
}

/// `find_slash` finds nothing in a slash-free suffix.
proof fn lemma_find_slash_miss(s: Seq<char>, from: int)
    requires
        0 <= from,
        forall|k: int| from <= k < s.len() ==> s[k] != '/',
    ensures
        find_slash(s, from) is None,
    decreases s.len() - from,
{
    if from < s.len() {
        lemma_find_slash_miss(s, from + 1);
    }
}

} // verus!
