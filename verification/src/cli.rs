use vstd::prelude::*;

verus! {

use crate::datatype::RemoteClipboard;
use vstd::string::StrSliceExecFns;

// ---------------------------------------------------------------------------
// The remote argument: `host`, `host:port`, or the sentinel `nopeer`.
// More than one colon is an invalid host; an omitted port falls back to
// the local listen port; a port is read the way the standard library
// reads a u16: an optional leading plus, then decimal digits, no more
// than 65535.
// ---------------------------------------------------------------------------

pub open spec fn count_colons(s: Seq<char>) -> int
    decreases s.len(),
{
    if s.len() == 0 {
        0int
    } else {
        (if s[0] == ':' {
            1int
        } else {
            0int
        }) + count_colons(s.drop_first())
    }
}

/// Where the first colon stands; the length when there is none.
pub open spec fn first_colon(s: Seq<char>) -> int
    decreases s.len(),
{
    if s.len() == 0 {
        0int
    } else if s[0] == ':' {
        0int
    } else {
        1 + first_colon(s.drop_first())
    }
}

proof fn lemma_count_colons_push(s: Seq<char>, c: char)
    ensures
        count_colons(s.push(c)) == count_colons(s) + (if c == ':' {
            1int
        } else {
            0int
        }),
    decreases s.len(),
{
    let t = s.push(c);
    if s.len() == 0 {
        assert(t[0] == c);
        assert(t.drop_first() =~= Seq::<char>::empty());
        assert(count_colons(t.drop_first()) == 0);
    } else {
        assert(t[0] == s[0]);
        assert(t.drop_first() =~= s.drop_first().push(c));
        lemma_count_colons_push(s.drop_first(), c);
    }
}

proof fn lemma_count_colons_zero(s: Seq<char>)
    requires
        count_colons(s) == 0,
    ensures
        forall|j: int| 0 <= j < s.len() ==> s[j] != ':',
    decreases s.len(),
{
    if s.len() > 0 {
        assert(count_colons(s.drop_first()) >= 0) by {
            lemma_count_colons_nonneg(s.drop_first());
        }
        lemma_count_colons_zero(s.drop_first());
        assert forall|j: int| 0 <= j < s.len() implies s[j] != ':' by {
            if j > 0 {
                assert(s.drop_first()[j - 1] != ':');
            }
        }
    }
}

proof fn lemma_count_colons_nonneg(s: Seq<char>)
    ensures
        count_colons(s) >= 0,
    decreases s.len(),
{
    if s.len() > 0 {
        lemma_count_colons_nonneg(s.drop_first());
    }
}

proof fn lemma_first_colon_found(s: Seq<char>, f: int)
    requires
        0 <= f < s.len(),
        s[f] == ':',
        forall|j: int| 0 <= j < f ==> s[j] != ':',
    ensures
        first_colon(s) == f,
    decreases s.len(),
{
    if f > 0 {
        lemma_first_colon_found(s.drop_first(), f - 1);
    }
}

pub open spec fn is_digit(c: char) -> bool {
    48 <= c as u32 <= 57
}

pub open spec fn all_digits(s: Seq<char>) -> bool {
    forall|i: int| 0 <= i < s.len() ==> is_digit(#[trigger] s[i])
}

/// The number a digit string spells.
pub open spec fn digits_value(s: Seq<char>) -> int
    decreases s.len(),
{
    if s.len() == 0 {
        0int
    } else {
        digits_value(s.drop_last()) * 10 + (s[s.len() - 1] as u32 - 48)
    }
}

proof fn lemma_digits_value_nonneg(s: Seq<char>)
    requires
        all_digits(s),
    ensures
        digits_value(s) >= 0,
    decreases s.len(),
{
    if s.len() > 0 {
        assert(all_digits(s.drop_last()));
        lemma_digits_value_nonneg(s.drop_last());
    }
}

/// A longer digit string never spells a smaller number.
proof fn lemma_digits_value_mono(s: Seq<char>, i: int)
    requires
        all_digits(s),
        0 <= i <= s.len(),
    ensures
        digits_value(s) >= digits_value(s.take(i)),
    decreases s.len() - i,
{
    if i < s.len() {
        lemma_digits_value_mono(s, i + 1);
        assert(s.take(i + 1).drop_last() =~= s.take(i));
        assert(all_digits(s.take(i)));
        lemma_digits_value_nonneg(s.take(i));
        assert(digits_value(s.take(i + 1)) == digits_value(s.take(i)) * 10 + (s[i] as u32 - 48));
    } else {
        assert(s.take(i) =~= s);
    }
}

/// The digits of a port string: what stands after an optional leading
/// plus sign.
pub open spec fn digits_part(s: Seq<char>) -> Seq<char> {
    if s.len() > 0 && s[0] == '+' {
        s.drop_first()
    } else {
        s
    }
}

/// The port a string names, the way u16 parsing reads it: an optional
/// leading plus, then one or more digits, value at most 65535.
pub open spec fn port_of_str(s: Seq<char>) -> Option<u16> {
    if digits_part(s).len() > 0 && all_digits(digits_part(s)) && digits_value(digits_part(s))
        <= 65535 {
        Some(digits_value(digits_part(s)) as u16)
    } else {
        None
    }
}

fn parse_port(s: &str) -> (r: Option<u16>)
    ensures
        r == port_of_str(s@),
{
    let n = s.unicode_len();
    let start: usize = if n > 0 && s.get_char(0) == '+' {
        1
    } else {
        0
    };
    let ghost t = digits_part(s@);
    proof {
        assert(t =~= s@.skip(start as int));
    }
    if n == start {
        return None;
    }
    let mut value: u32 = 0;
    let mut i = start;
    while i < n
        invariant
            start <= i <= n,
            n == s@.len(),
            t == digits_part(s@),
            t == s@.skip(start as int),
            t.len() == n - start,
            all_digits(t.take((i - start) as int)),
            value == digits_value(t.take((i - start) as int)),
            value <= 65535,
        decreases n - i,
    {
        let c = s.get_char(i);
        let u = c as u32;
        proof {
            assert(t[(i - start) as int] == s@[i as int]);
            assert(t.take((i - start) + 1).drop_last() =~= t.take((i - start) as int));
        }
        if !(48 <= u && u <= 57) {
            proof {
                assert(t[(i - start) as int] == c);
                assert(!is_digit(t[(i - start) as int]));
                assert(!all_digits(t));
                assert(port_of_str(s@) is None);
            }
            return None;
        }
        proof {
            assert(all_digits(t.take((i - start) + 1)));
        }
        value = value * 10 + (u - 48);
        proof {
            assert(t.take((i - start) + 1)[(i - start) as int] == t[(i - start) as int]);
            assert(digits_value(t.take((i - start) + 1)) == digits_value(
                t.take((i - start) as int),
            ) * 10 + (t[(i - start) as int] as u32 - 48));
            assert(value == digits_value(t.take((i - start) + 1)));
        }
        if value > 65535 {
            proof {
                if all_digits(t) {
                    lemma_digits_value_mono(t, (i - start) + 1);
                    assert(digits_value(t) > 65535);
                }
                assert(port_of_str(s@) is None);
            }
            return None;
        }
        i = i + 1;
    }
    proof {
        assert(t.take((n - start) as int) =~= t);
    }
    Some(value as u16)
}

/// What the remote argument came out as.
pub enum RemoteParse {
    /// The sentinel: no seed peer is configured.
    NoPeer,
    /// A host with an explicit port.
    Seed(RemoteClipboard),
    /// A host alone; the port fell back to the local listen port, which
    /// the caller should warn about.
    SeedDefaultPort(RemoteClipboard),
    /// More than one colon: no valid host.
    InvalidHost,
    /// A port part that is not a number up to 65535.
    InvalidPort,
}

/// Read the remote argument: `nopeer` means none; one colon splits host
/// and port; no colon takes the local port; more colons are invalid.
pub fn parse_remote(remote: &str, local_port: u16) -> (r: RemoteParse)
    ensures
        ({
            let s = remote@;
            if s == "nopeer"@ {
                r is NoPeer
            } else if count_colons(s) >= 2 {
                r is InvalidHost
            } else if count_colons(s) == 1 {
                match port_of_str(s.skip(first_colon(s) + 1)) {
                    Some(p) => {
                        &&& r matches RemoteParse::Seed(rc)
                        &&& rc@.host == s.take(first_colon(s))
                        &&& rc@.port == p
                    },
                    None => r is InvalidPort,
                }
            } else {
                &&& r matches RemoteParse::SeedDefaultPort(rc)
                &&& rc@.host == s
                &&& rc@.port == local_port
            }
        }),
{
    let owned = remote.to_owned();
    let sentinel = String::from_str("nopeer");
    if owned == sentinel {
        return RemoteParse::NoPeer;
    }
    let n = remote.unicode_len();
    let mut cnt: usize = 0;
    let mut first: usize = 0;
    let mut i: usize = 0;
    proof {
        assert(remote@.take(0) =~= Seq::<char>::empty());
    }
    while i < n
        invariant
            i <= n,
            n == remote@.len(),
            cnt == count_colons(remote@.take(i as int)),
            cnt <= i,
            cnt > 0 ==> (first < i && remote@[first as int] == ':' && (forall|j: int|
                0 <= j < first ==> remote@[j] != ':')),
        decreases n - i,
    {
        let c = remote.get_char(i);
        proof {
            assert(remote@.take(i + 1 as int) =~= remote@.take(i as int).push(remote@[i as int]));
            lemma_count_colons_push(remote@.take(i as int), remote@[i as int]);
        }
        if c == ':' {
            if cnt == 0 {
                proof {
                    lemma_count_colons_zero(remote@.take(i as int));
                    assert forall|j: int| 0 <= j < i implies remote@[j] != ':' by {
                        assert(remote@.take(i as int)[j] == remote@[j]);
                    }
                }
                first = i;
            }
            cnt = cnt + 1;
        }
        i = i + 1;
    }
    proof {
        assert(remote@.take(n as int) =~= remote@);
    }
    if cnt >= 2 {
        RemoteParse::InvalidHost
    } else if cnt == 1 {
        proof {
            lemma_first_colon_found(remote@, first as int);
        }
        let host = remote.substring_char(0, first).to_owned();
        let port_part = remote.substring_char(first + 1, n);
        proof {
            assert(remote@.subrange(first + 1 as int, n as int) =~= remote@.skip(first + 1));
        }
        match parse_port(port_part) {
            Some(p) => RemoteParse::Seed(RemoteClipboard { host, port: p }),
            None => RemoteParse::InvalidPort,
        }
    } else {
        let host = remote.to_owned();
        RemoteParse::SeedDefaultPort(RemoteClipboard { host, port: local_port })
    }
}

} // verus!
