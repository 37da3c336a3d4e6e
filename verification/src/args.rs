use vstd::prelude::*;

use crate::addr::IpAddress;
use crate::config::ScanConfig;

verus! {

/// Why a command line was rejected. `Help` is the help request: not a fault,
/// but it also yields no configuration.
#[derive(Clone, Copy, PartialEq, Eq, Structural, Debug)]
pub enum ArgError {
    NotEnoughArguments,
    TooManyArguments,
    Help,
    InvalidIpAddress,
    InvalidThreadCount,
    MissingThreadCount,
    InvalidStartPort,
    MissingStartPort,
    InvalidEndPort,
    MissingEndPort,
    PortRangeOutOfBounds,
}

/// ASCII decimal digit.
pub open spec fn is_digit(c: u8) -> bool {
    48 <= c <= 57
}

pub open spec fn all_digits(s: Seq<u8>) -> bool {
    forall|k: int| 0 <= k < s.len() ==> is_digit(#[trigger] s[k])
}

/// Numeric value of a sequence of ASCII digits.
pub open spec fn dec_value(s: Seq<u8>) -> int
    decreases s.len(),
{
    if s.len() == 0 {
        0
    } else {
        dec_value(s.drop_last()) * 10 + (s.last() - 48)
    }
}

/// The digit part of an unsigned decimal literal: an optional leading `+` is
/// skipped, as `u16` parsing accepts it.
pub open spec fn literal_digits(s: Seq<u8>) -> Seq<u8> {
    if s.len() > 0 && s[0] == 43 {
        s.drop_first()
    } else {
        s
    }
}

/// Whether `s` is the text of a number that fits a `u16`: an optional `+`,
/// then at least one digit, with value at most 65535.
pub open spec fn is_u16_text(s: Seq<u8>) -> bool {
    let d = literal_digits(s);
    d.len() > 0 && all_digits(d) && dec_value(d) <= 65535
}

/// The value of such a text.
pub open spec fn u16_text_value(s: Seq<u8>) -> int {
    dec_value(literal_digits(s))
}

pub proof fn lemma_dec_value_nonneg(s: Seq<u8>)
    requires
        all_digits(s),
    ensures
        dec_value(s) >= 0,
    decreases s.len(),
{
    if s.len() > 0 {
        assert(all_digits(s.drop_last()));
        lemma_dec_value_nonneg(s.drop_last());
        assert(is_digit(s[s.len() - 1]));
    }
}

/// Reading further digits never shrinks the value: the value of a digit
/// prefix bounds the value of the whole from below.
pub proof fn lemma_dec_value_prefix_le(s: Seq<u8>, j: int)
    requires
        all_digits(s),
        0 <= j <= s.len(),
    ensures
        dec_value(s.take(j)) <= dec_value(s),
    decreases s.len() - j,
{
    if j == s.len() {
        assert(s.take(j) =~= s);
    } else {
        assert(all_digits(s.take(j)));
        lemma_dec_value_nonneg(s.take(j));
        assert(s.take(j + 1).drop_last() =~= s.take(j));
        assert(s.take(j + 1).last() == s[j]);
        assert(is_digit(s[j]));
        lemma_dec_value_prefix_le(s, j + 1);
    }
}

/// Parse an unsigned decimal number that fits a `u16`, exactly as the
/// standard parser accepts one: an optional leading `+`, then one or more
/// digits, value at most 65535.
pub fn parse_u16(s: &Vec<u8>) -> (r: Option<u16>)
    ensures
        match r {
            Some(n) => is_u16_text(s@) && n as int == u16_text_value(s@),
            None => !is_u16_text(s@),
        },
{
    let ghost d = literal_digits(s@);
    let mut j: usize = 0;
    if s.len() > 0 && s[0] == 43 {
        j = 1;
    }
    proof {
        assert(d =~= s@.subrange(j as int, s@.len() as int));
    }
    if j == s.len() {
        return None;
    }
    let start = j;
    let mut acc: u32 = 0;
    proof {
        assert(d.take(0) =~= Seq::<u8>::empty());
    }
    while j < s.len()
        invariant
            d == literal_digits(s@),
            d == s@.subrange(start as int, s@.len() as int),
            start <= j <= s@.len(),
            start < s@.len(),
            all_digits(d.take(j - start)),
            acc == dec_value(d.take(j - start)),
            acc <= 65535,
        decreases s@.len() - j,
    {
        let c = s[j];
        proof {
            assert(d[j - start] == s@[j as int]);
        }
        if c < 48 || c > 57 {
            proof {
                assert(!is_digit(d[j - start]));
                assert(!all_digits(d));
            }
            return None;
        }
        let digit: u32 = (c - 48) as u32;
        let next: u32 = acc * 10 + digit;
        proof {
            assert(d.take(j - start + 1).drop_last() =~= d.take(j - start));
            assert(d.take(j - start + 1).last() == d[j - start]);
            assert(next == dec_value(d.take(j - start + 1)));
            assert(all_digits(d.take(j - start + 1)));
        }
        if next > 65535 {
            proof {
                if all_digits(d) {
                    lemma_dec_value_prefix_le(d, j - start + 1);
                }
                assert(!is_u16_text(s@));
            }
            return None;
        }
        acc = next;
        j += 1;
    }
    proof {
        assert(d.take(d.len() as int) =~= d);
    }
    Some(acc as u16)
}

/// `needle` occurs as a contiguous run of bytes inside `hay`.
pub open spec fn contains_sub(hay: Seq<u8>, needle: Seq<u8>) -> bool {
    exists|off: int|
        0 <= off && off + needle.len() <= hay.len() && #[trigger] hay.subrange(
            off,
            off + needle.len(),
        ) == needle
}

/// Whether `needle` matches the bytes of `hay` starting at offset `off`.
fn match_at(hay: &Vec<u8>, needle: &Vec<u8>, off: usize) -> (r: bool)
    requires
        off + needle@.len() <= hay@.len(),
    ensures
        r == (hay@.subrange(off as int, off as int + needle@.len() as int) == needle@),
{
    let mut k: usize = 0;
    let hlen = hay.len();
    let nlen = needle.len();
    while k < nlen
        invariant
            hlen == hay@.len(),
            nlen == needle@.len(),
            off + needle@.len() <= hay@.len(),
            k <= needle@.len(),
            forall|t: int| 0 <= t < k ==> hay@[off + t] == needle@[t],
        decreases needle@.len() - k,
    {
        if hay[off + k] != needle[k] {
            proof {
                assert(hay@.subrange(off as int, off as int + needle@.len() as int)[k as int]
                    == hay@[off + k]);
            }
            return false;
        }
        k += 1;
    }
    proof {
        assert(hay@.subrange(off as int, off as int + needle@.len() as int) =~= needle@);
    }
    true
}

/// Substring search over bytes, as the flag tests of the command line use it.
pub fn bytes_contains(hay: &Vec<u8>, needle: &Vec<u8>) -> (r: bool)
    ensures
        r == contains_sub(hay@, needle@),
{
    if needle.len() > hay.len() {
        return false;
    }
    if needle.len() == 0 {
        proof {
            assert(hay@.subrange(0, 0 + needle@.len() as int) =~= needle@);
        }
        return true;
    }
    let mut off: usize = 0;
    let hlen = hay.len();
    let nlen = needle.len();
    while off <= hlen - nlen
        invariant
            hlen == hay@.len(),
            nlen == needle@.len(),
            1 <= needle@.len() <= hay@.len(),
            off <= hay@.len(),
            forall|o: int|
                0 <= o < off ==> #[trigger] hay@.subrange(o, o + needle@.len()) != needle@,
        decreases hay@.len() - off,
    {
        if match_at(hay, needle, off) {
            return true;
        }
        off += 1;
    }
    proof {
        assert(!contains_sub(hay@, needle@)) by {
            if contains_sub(hay@, needle@) {
                let o = choose|o: int|
                    0 <= o && o + needle@.len() <= hay@.len() && #[trigger] hay@.subrange(
                        o,
                        o + needle@.len(),
                    ) == needle@;
                assert(o < off);
            }
        }
    }
    false
}

/// The meaning of the command line
/// `program <IP_ADDRESS> [-j THREADS] [-p START_PORT END_PORT]`,
/// with `args` the arguments as byte strings (the program name first) and
/// `target` the result of reading `args[1]` as an IP address. A flag matches
/// wherever it occurs inside the argument, by design;
/// defaults are 4 workers and the full port range.
pub open spec fn parse_spec(args: Seq<Seq<u8>>, target: Option<IpAddress>) -> Result<
    ScanConfig,
    ArgError,
> {
    if args.len() < 2 {
        Err(ArgError::NotEnoughArguments)
    } else if args.len() > 5 {
        Err(ArgError::TooManyArguments)
    } else if contains_sub(args[1], seq![45u8, 104u8]) {  // "-h"
        if args.len() == 2 {
            Err(ArgError::Help)
        } else {
            Err(ArgError::TooManyArguments)
        }
    } else {
        match target {
            None => Err(ArgError::InvalidIpAddress),
            Some(tgt) => {
                if args.len() > 2 && contains_sub(args[2], seq![45u8, 106u8]) {  // "-j"
                    if args.len() <= 3 {
                        Err(ArgError::MissingThreadCount)
                    } else if !is_u16_text(args[3]) || u16_text_value(args[3]) == 0 {
                        Err(ArgError::InvalidThreadCount)
                    } else {
                        Ok(
                            ScanConfig {
                                target: tgt,
                                start_port: 1,
                                end_port: 65535,
                                worker_count: u16_text_value(args[3]) as u16,
                            },
                        )
                    }
                } else if args.len() > 2 && contains_sub(args[2], seq![45u8, 112u8]) {  // "-p"
                    if args.len() <= 3 {
                        Err(ArgError::MissingStartPort)
                    } else if !is_u16_text(args[3]) {
                        Err(ArgError::InvalidStartPort)
                    } else if args.len() <= 4 {
                        Err(ArgError::MissingEndPort)
                    } else if !is_u16_text(args[4]) {
                        Err(ArgError::InvalidEndPort)
                    } else if u16_text_value(args[3]) == 0 || u16_text_value(args[3])
                        > u16_text_value(args[4]) {
                        Err(ArgError::PortRangeOutOfBounds)
                    } else {
                        Ok(
                            ScanConfig {
                                target: tgt,
                                start_port: u16_text_value(args[3]) as u16,
                                end_port: u16_text_value(args[4]) as u16,
                                worker_count: 4,
                            },
                        )
                    }
                } else {
                    Ok(ScanConfig { target: tgt, start_port: 1, end_port: 65535, worker_count: 4 })
                }
            },
        }
    }
}

/// Parse the command line into a validated configuration. `target` must be
/// the reading of `args[1]` as an IP address, `None` when it is not one; the
/// surrounding binary supplies it, since only it can turn address text into
/// an address value. Every accepted configuration is valid.
pub fn parse_arguments(args: &Vec<Vec<u8>>, target: Option<IpAddress>) -> (r: Result<
    ScanConfig,
    ArgError,
>)
    ensures
        r == parse_spec(args.deep_view(), target),
        r matches Ok(c) ==> c.valid(),
{
    let ghost sargs = args.deep_view();
    proof {
        assert forall|i: int| 0 <= i < args@.len() implies sargs[i] == args@[i]@ by {
            assert(args@[i].deep_view() =~= args@[i]@);
        }
    }
    if args.len() < 2 {
        return Err(ArgError::NotEnoughArguments);
    }
    if args.len() > 5 {
        return Err(ArgError::TooManyArguments);
    }
    let mut needle_h: Vec<u8> = Vec::new();  // "-h"
    needle_h.push(45);
    needle_h.push(104);
    proof {
        assert(needle_h@ =~= seq![45u8, 104u8]);
    }
    if bytes_contains(&args[1], &needle_h) {
        if args.len() == 2 {
            return Err(ArgError::Help);
        } else {
            return Err(ArgError::TooManyArguments);
        }
    }
    let tgt = match target {
        Some(t) => t,
        None => {
            return Err(ArgError::InvalidIpAddress);
        },
    };
    let mut threads: u16 = 4;
    let mut start_port: u16 = 1;
    let mut end_port: u16 = 65535;
    if args.len() > 2 {
        let mut needle_j: Vec<u8> = Vec::new();  // "-j"
        needle_j.push(45);
        needle_j.push(106);
        proof {
            assert(needle_j@ =~= seq![45u8, 106u8]);
        }
        let mut needle_p: Vec<u8> = Vec::new();  // "-p"
        needle_p.push(45);
        needle_p.push(112);
        proof {
            assert(needle_p@ =~= seq![45u8, 112u8]);
        }
        if bytes_contains(&args[2], &needle_j) {
            if args.len() <= 3 {
                return Err(ArgError::MissingThreadCount);
            }
            match parse_u16(&args[3]) {
                Some(t) => {
                    if t == 0 {
                        return Err(ArgError::InvalidThreadCount);
                    }
                    threads = t;
                },
                None => {
                    return Err(ArgError::InvalidThreadCount);
                },
            }
        } else if bytes_contains(&args[2], &needle_p) {
            if args.len() <= 3 {
                return Err(ArgError::MissingStartPort);
            }
            match parse_u16(&args[3]) {
                Some(sp) => {
                    start_port = sp;
                },
                None => {
                    return Err(ArgError::InvalidStartPort);
                },
            }
            if args.len() <= 4 {
                return Err(ArgError::MissingEndPort);
            }
            match parse_u16(&args[4]) {
                Some(ep) => {
                    end_port = ep;
                },
                None => {
                    return Err(ArgError::InvalidEndPort);
                },
            }
            if start_port == 0 || start_port > end_port {
                return Err(ArgError::PortRangeOutOfBounds);
            }
        }
    }
    Ok(ScanConfig { target: tgt, start_port, end_port, worker_count: threads })
}

} // verus!
