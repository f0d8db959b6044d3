//! Parsing binding descriptions of the form
//! `remote_host:remote_port~local_host:local_port`, and rendering a
//! binding back to that form.  A malformed description is rejected with
//! the reason; nothing is parsed partially.

use vstd::prelude::*;

use crate::binding::Binding;
use crate::binding::ConfigError;
use crate::digits::all_digits;
use crate::digits::dec_of;
use crate::digits::dec_value;
use crate::digits::is_digit;
use crate::digits::lemma_dec_of_value;
use crate::digits::lemma_digits_avoid;
use crate::digits::parse_port;
use crate::digits::port_str_wf;
use crate::digits::u16_to_string;

verus! {

/// `c` occurs nowhere in `s`.
pub open spec fn no_char(s: Seq<char>, c: char) -> bool {
    forall|i: int| 0 <= i < s.len() ==> (#[trigger] s[i]) != c
}

/// `k` is the position of the one and only occurrence of `c` in `s`.
pub open spec fn split_one(s: Seq<char>, c: char, k: int) -> bool {
    &&& 0 <= k < s.len()
    &&& s[k] == c
    &&& no_char(s.take(k), c)
    &&& no_char(s.skip(k + 1), c)
}

/// `c` occurs exactly once in `s`.
pub open spec fn splittable(s: Seq<char>, c: char) -> bool {
    exists|k: int| split_one(s, c, k)
}

/// The position of the one occurrence of `c` in `s` (meaningful only
/// when `splittable(s, c)` holds).
pub open spec fn split_idx(s: Seq<char>, c: char) -> int {
    choose|k: int| split_one(s, c, k)
}

/// Any occurrence of `c` in `s` is at the unique split position.
pub proof fn lemma_split_pins(s: Seq<char>, c: char, k: int, j: int)
    requires
        split_one(s, c, k),
        0 <= j < s.len(),
        s[j] == c,
    ensures
        j == k,
{
    if j < k {
        assert(s.take(k)[j] == c);
    } else if j > k {
        assert(s.skip(k + 1)[j - k - 1] == c);
    }
}

/// A witness for `split_one` fixes `split_idx`.
pub proof fn lemma_split_idx_is(s: Seq<char>, c: char, k: int)
    requires
        split_one(s, c, k),
    ensures
        splittable(s, c),
        split_idx(s, c) == k,
{
    assert(splittable(s, c));
    let k2 = split_idx(s, c);
    assert(split_one(s, c, k2));
    lemma_split_pins(s, c, k2, k);
}

/// An address half `host:port` is well formed: exactly one `':'`, and
/// what follows it is a valid decimal port.
pub open spec fn addr_wf(s: Seq<char>) -> bool {
    &&& splittable(s, ':')
    &&& port_str_wf(s.skip(split_idx(s, ':') + 1))
}

/// The host part of a well-formed address half.
pub open spec fn addr_host(s: Seq<char>) -> Seq<char> {
    s.take(split_idx(s, ':'))
}

/// The port value of a well-formed address half.
pub open spec fn addr_port(s: Seq<char>) -> int {
    dec_value(s.skip(split_idx(s, ':') + 1))
}

/// The error reported for a malformed address half.
pub open spec fn addr_err(s: Seq<char>) -> ConfigError {
    if !splittable(s, ':') {
        ConfigError::MissingColon
    } else {
        ConfigError::InvalidPort
    }
}

/// A whole binding description is well formed: exactly one `'~'`, with a
/// well-formed address half on each side.
pub open spec fn binding_wf(s: Seq<char>) -> bool {
    &&& splittable(s, '~')
    &&& addr_wf(s.take(split_idx(s, '~')))
    &&& addr_wf(s.skip(split_idx(s, '~') + 1))
}

/// The error reported for a malformed binding description: the separator
/// first, then the remote half, then the local half.
pub open spec fn binding_err(s: Seq<char>) -> ConfigError {
    if !splittable(s, '~') {
        ConfigError::MissingSeparator
    } else if !addr_wf(s.take(split_idx(s, '~'))) {
        addr_err(s.take(split_idx(s, '~')))
    } else {
        addr_err(s.skip(split_idx(s, '~') + 1))
    }
}

/// `b` holds exactly the fields written in the description `s`: the
/// remote address before the `'~'`, the local address after it.
pub open spec fn binding_matches(s: Seq<char>, b: Binding) -> bool {
    let ra = s.take(split_idx(s, '~'));
    let la = s.skip(split_idx(s, '~') + 1);
    &&& b.remote_host@ == addr_host(ra)
    &&& b.remote_port as int == addr_port(ra)
    &&& b.local_host@ == addr_host(la)
    &&& b.local_port as int == addr_port(la)
}

/// Finds the first occurrence of `c` in `s`, if there is one.
fn find_first(s: &str, c: char) -> (r: Option<usize>)
    ensures
        r matches Some(k) ==> k < s@.len() && s@[k as int] == c && no_char(s@.take(k as int), c),
        r is None ==> no_char(s@, c),
{
    let n = s.unicode_len();
    let mut i: usize = 0;
    while i < n
        invariant
            n == s@.len(),
            0 <= i <= n,
            no_char(s@.take(i as int), c),
        decreases n - i,
    {
        if s.get_char(i) == c {
            return Some(i);
        }
        proof {
            assert forall|t: int| 0 <= t < i + 1 implies (#[trigger] s@.take(i + 1)[t]) != c by {
                if t < i {
                    assert(s@.take(i as int)[t] != c);
                }
            }
        }
        i = i + 1;
    }
    proof {
        assert(s@.take(n as int) =~= s@);
    }
    None
}

/// Finds the position of `c` in `s` when `c` occurs exactly once, and
/// reports that no unique occurrence exists otherwise.
fn find_unique(s: &str, c: char) -> (r: Option<usize>)
    ensures
        r matches Some(k) ==> split_one(s@, c, k as int),
        r is None ==> !splittable(s@, c),
{
    let n = s.unicode_len();
    let j = match find_first(s, c) {
        Some(j) => j,
        None => {
            proof {
                assert forall|k: int| !split_one(s@, c, k) by {
                    if 0 <= k < s@.len() {
                        assert(s@[k] != c);
                    }
                }
            }
            return None;
        },
    };
    let mut m: usize = j + 1;
    while m < n
        invariant
            n == s@.len(),
            j < m <= n,
            s@[j as int] == c,
            no_char(s@.take(j as int), c),
            forall|t: int| j < t < m ==> (#[trigger] s@[t]) != c,
        decreases n - m,
    {
        if s.get_char(m) == c {
            proof {
                assert forall|k: int| !split_one(s@, c, k) by {
                    if split_one(s@, c, k) {
                        lemma_split_pins(s@, c, k, j as int);
                        lemma_split_pins(s@, c, k, m as int);
                    }
                }
            }
            return None;
        }
        m = m + 1;
    }
    proof {
        assert forall|t: int| 0 <= t < s@.skip(j + 1).len() implies (#[trigger] s@.skip(j + 1)[t])
            != c by {
            assert(s@.skip(j + 1)[t] == s@[j + 1 + t]);
        }
    }
    Some(j)
}

/// Splits one address half `host:port` into its host text and its port
/// value.  Succeeds exactly when the half contains exactly one `':'`
/// followed by a valid decimal port.
pub fn split_address(s: &str) -> (r: Result<(String, u16), ConfigError>)
    ensures
        r is Ok <==> addr_wf(s@),
        r matches Ok(hp) ==> hp.0@ == addr_host(s@) && hp.1 as int == addr_port(s@),
        r matches Err(e) ==> e == addr_err(s@),
{
    let n = s.unicode_len();
    match find_unique(s, ':') {
        None => Err(ConfigError::MissingColon),
        Some(j) => {
            proof {
                lemma_split_idx_is(s@, ':', j as int);
            }
            let host = s.substring_char(0, j);
            let port_text = s.substring_char(j + 1, n);
            proof {
                assert(host@ =~= addr_host(s@));
                assert(port_text@ =~= s@.skip(j + 1));
            }
            match parse_port(port_text) {
                None => Err(ConfigError::InvalidPort),
                Some(p) => Ok((String::from_str(host), p)),
            }
        },
    }
}

/// Parses one binding description `remote_host:remote_port~local_host:local_port`.
/// Succeeds exactly when the description is well formed, and then yields
/// the binding with those four fields; a malformed description yields
/// the error for its first offending part.
pub fn parse_binding(s: &str) -> (r: Result<Binding, ConfigError>)
    ensures
        r is Ok <==> binding_wf(s@),
        r matches Ok(b) ==> binding_matches(s@, b),
        r matches Err(e) ==> e == binding_err(s@),
{
    let n = s.unicode_len();
    match find_unique(s, '~') {
        None => Err(ConfigError::MissingSeparator),
        Some(k) => {
            proof {
                lemma_split_idx_is(s@, '~', k as int);
            }
            let remote_text = s.substring_char(0, k);
            let local_text = s.substring_char(k + 1, n);
            proof {
                assert(remote_text@ =~= s@.take(k as int));
                assert(local_text@ =~= s@.skip(k + 1));
            }
            let (remote_host, remote_port) = match split_address(remote_text) {
                Ok(hp) => hp,
                Err(e) => {
                    return Err(e);
                },
            };
            let (local_host, local_port) = match split_address(local_text) {
                Ok(hp) => hp,
                Err(e) => {
                    return Err(e);
                },
            };
            Ok(Binding { remote_host, remote_port, local_host, local_port })
        },
    }
}

/// Parses a whole list of binding descriptions, in order.  Succeeds
/// exactly when every description is well formed; the first malformed
/// description aborts the parse with its error, yielding no bindings.
pub fn parse_bindings(specs: &Vec<String>) -> (r: Result<Vec<Binding>, ConfigError>)
    ensures
        r is Ok <==> (forall|i: int| 0 <= i < specs@.len() ==> binding_wf(#[trigger] specs@[i]@)),
        r matches Ok(bs) ==> bs@.len() == specs@.len() && (forall|i: int|
            0 <= i < specs@.len() ==> binding_matches(specs@[i]@, #[trigger] bs@[i])),
        r matches Err(e) ==> exists|i: int|
            0 <= i < specs@.len() && !binding_wf(#[trigger] specs@[i]@) && (forall|j: int|
                0 <= j < i ==> binding_wf(#[trigger] specs@[j]@)) && e == binding_err(specs@[i]@),
{
    let mut out: Vec<Binding> = Vec::new();
    let mut idx: usize = 0;
    while idx < specs.len()
        invariant
            0 <= idx <= specs@.len(),
            out@.len() == idx,
            forall|i: int| 0 <= i < idx ==> binding_wf(#[trigger] specs@[i]@),
            forall|i: int| 0 <= i < idx ==> binding_matches(specs@[i]@, #[trigger] out@[i]),
        decreases specs@.len() - idx,
    {
        match parse_binding(specs[idx].as_str()) {
            Ok(b) => {
                out.push(b);
            },
            Err(e) => {
                return Err(e);
            },
        }
        idx = idx + 1;
    }
    Ok(out)
}

/// The text of `b` in the form the parser reads back:
/// `remote_host:remote_port~local_host:local_port`.
pub open spec fn binding_text(b: Binding) -> Seq<char> {
    b.remote_host@ + seq![':'] + dec_of(b.remote_port as nat) + seq!['~'] + b.local_host@
        + seq![':'] + dec_of(b.local_port as nat)
}

/// Renders `b` back to the textual form the parser reads.
pub fn format_binding(b: &Binding) -> (r: String)
    ensures
        r@ == binding_text(*b),
{
    let mut out = b.remote_host.clone();
    out.append(":");
    let remote_port_text = u16_to_string(b.remote_port);
    out.append(remote_port_text.as_str());
    out.append("~");
    out.append(b.local_host.as_str());
    out.append(":");
    let local_port_text = u16_to_string(b.local_port);
    out.append(local_port_text.as_str());
    proof {
        reveal_strlit(":");
        reveal_strlit("~");
        assert(":"@ =~= seq![':']);
        assert("~"@ =~= seq!['~']);
        assert(out@ =~= binding_text(*b));
    }
    out
}

/// A host text that the textual form can carry: one containing neither
/// separator character.
pub open spec fn host_wf(h: Seq<char>) -> bool {
    no_char(h, ':') && no_char(h, '~')
}

/// One address half of the rendered text parses back to its own host
/// and port.
proof fn lemma_addr_round_trip(h: Seq<char>, p: nat)
    requires
        host_wf(h),
        p <= 65535,
    ensures
        addr_wf(h + seq![':'] + dec_of(p)),
        addr_host(h + seq![':'] + dec_of(p)) == h,
        addr_port(h + seq![':'] + dec_of(p)) == p,
{
    let a = h + seq![':'] + dec_of(p);
    let j = h.len() as int;
    lemma_dec_of_value(p);
    assert(!is_digit(':'));
    lemma_digits_avoid(dec_of(p), ':');
    assert(a[j] == ':');
    assert(a.take(j) =~= h);
    assert(a.skip(j + 1) =~= dec_of(p));
    assert(split_one(a, ':', j));
    lemma_split_idx_is(a, ':', j);
}

/// Rendering a binding and parsing the text back yields the same four
/// fields, for any binding whose hosts contain neither separator
/// character.
pub proof fn lemma_format_parse_round_trip(b: Binding)
    requires
        host_wf(b.remote_host@),
        host_wf(b.local_host@),
    ensures
        binding_wf(binding_text(b)),
        binding_matches(binding_text(b), b),
{
    let t = binding_text(b);
    let ra = b.remote_host@ + seq![':'] + dec_of(b.remote_port as nat);
    let la = b.local_host@ + seq![':'] + dec_of(b.local_port as nat);
    let k = ra.len() as int;
    assert(!is_digit('~'));
    lemma_dec_of_value(b.remote_port as nat);
    lemma_dec_of_value(b.local_port as nat);
    lemma_digits_avoid(dec_of(b.remote_port as nat), '~');
    lemma_digits_avoid(dec_of(b.local_port as nat), '~');
    assert(t[k] == '~');
    assert(t.take(k) =~= ra);
    assert(t.skip(k + 1) =~= la);
    assert forall|i: int| 0 <= i < t.take(k).len() implies (#[trigger] t.take(k)[i]) != '~' by {
        assert(t.take(k)[i] == ra[i]);
        if i < b.remote_host@.len() {
            assert(ra[i] == b.remote_host@[i]);
        } else if i > b.remote_host@.len() {
            assert(ra[i] == dec_of(b.remote_port as nat)[i - b.remote_host@.len() - 1]);
        }
    }
    assert forall|i: int| 0 <= i < t.skip(k + 1).len() implies (#[trigger] t.skip(k + 1)[i])
        != '~' by {
        assert(t.skip(k + 1)[i] == la[i]);
        if i < b.local_host@.len() {
            assert(la[i] == b.local_host@[i]);
        } else if i > b.local_host@.len() {
            assert(la[i] == dec_of(b.local_port as nat)[i - b.local_host@.len() - 1]);
        }
    }
    assert(split_one(t, '~', k));
    lemma_split_idx_is(t, '~', k);
    lemma_addr_round_trip(b.remote_host@, b.remote_port as nat);
    lemma_addr_round_trip(b.local_host@, b.local_port as nat);
}

} // verus!
