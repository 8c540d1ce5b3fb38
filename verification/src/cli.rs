use vstd::prelude::*;
use vstd::slice::slice_index_get;
use vstd::string::StrSliceExecFns;

use crate::error::BitcoinError;

verus! {

/// An operation request recognized by the command parser.
pub enum CliCommand {
    /// Transfer `amount` of the smallest ledger unit to `address`.
    Send { amount: u64, address: String },
    /// Query the current balance.
    Balance,
}

/// Whether `c` is an ASCII decimal digit.
pub open spec fn is_dec_digit(c: char) -> bool {
    48 <= c as u32 <= 57
}

/// The numeric value of one decimal digit.
pub open spec fn digit_val(c: char) -> int {
    c as u32 - 48
}

/// Whether `s` consists of one or more decimal digits.
pub open spec fn all_dec_digits(s: Seq<char>) -> bool {
    s.len() > 0 && forall|k: int| 0 <= k < s.len() ==> is_dec_digit(#[trigger] s[k])
}

/// The number denoted by a digit string, most significant digit first.
pub open spec fn dec_value(s: Seq<char>) -> int
    decreases s.len(),
{
    if s.len() == 0 {
        0
    } else {
        dec_value(s.drop_last()) * 10 + digit_val(s.last())
    }
}

/// The digits of `s`, skipping one optional leading plus sign.
pub open spec fn dec_digits_of(s: Seq<char>) -> Seq<char> {
    if s.len() >= 1 && s[0] == '+' {
        s.subrange(1, s.len() as int)
    } else {
        s
    }
}

/// The unsigned 64-bit number denoted by `s`, if any: an optional leading
/// plus sign, then one or more decimal digits, whose value fits 64 bits.
pub open spec fn spec_parse_u64(s: Seq<char>) -> Option<u64> {
    if all_dec_digits(dec_digits_of(s)) && dec_value(dec_digits_of(s)) <= u64::MAX {
        Some(dec_value(dec_digits_of(s)) as u64)
    } else {
        None
    }
}

/// A digit string denotes a non-negative number.
proof fn lemma_dec_value_nonneg(s: Seq<char>)
    requires
        forall|k: int| 0 <= k < s.len() ==> is_dec_digit(#[trigger] s[k]),
    ensures
        dec_value(s) >= 0,
    decreases s.len(),
{
    if s.len() > 0 {
        lemma_dec_value_nonneg(s.drop_last());
    }
}

/// Extending a digit string never decreases its value.
proof fn lemma_dec_value_prefix_le(s: Seq<char>, j: int)
    requires
        forall|k: int| 0 <= k < s.len() ==> is_dec_digit(#[trigger] s[k]),
        0 <= j <= s.len(),
    ensures
        dec_value(s.subrange(0, j)) <= dec_value(s),
    decreases s.len() - j,
{
    if j == s.len() {
        assert(s.subrange(0, j) =~= s);
    } else {
        let p = s.subrange(0, j + 1);
        assert(p.drop_last() =~= s.subrange(0, j));
        assert(forall|k: int|
            0 <= k < s.subrange(0, j).len() ==> is_dec_digit(#[trigger] s.subrange(0, j)[k]));
        lemma_dec_value_nonneg(s.subrange(0, j));
        assert(p.last() == s[j]);
        assert(dec_value(s.subrange(0, j)) <= dec_value(p));
        lemma_dec_value_prefix_le(s, j + 1);
    }
}

/// Reads an unsigned 64-bit number from a decimal string: an optional
/// leading plus sign, then one or more decimal digits; fails on any other
/// character, on an empty digit run, and on a value over 64 bits.
pub fn parse_u64_decimal(s: &str) -> (r: Option<u64>)
    ensures
        r == spec_parse_u64(s@),
{
    let n = s.unicode_len();
    let mut start: usize = 0;
    if n >= 1 && s.get_char(0) == '+' {
        start = 1;
    }
    if n == start {
        return None;
    }
    let mut acc: u64 = 0;
    let mut i: usize = start;
    while i < n
        invariant
            s@.len() == n,
            start <= i <= n,
            start <= 1,
            n > start,
            start == 1 <==> (s@.len() >= 1 && s@[0] == '+'),
            forall|k: int| start <= k < i ==> is_dec_digit(#[trigger] s@[k]),
            acc as int == dec_value(s@.subrange(start as int, i as int)),
        decreases n - i,
    {
        let c = s.get_char(i);
        let cv = c as u32;
        if cv < 48 || cv > 57 {
            proof {
                let digits = dec_digits_of(s@);
                assert(digits == s@.subrange(start as int, n as int));
                assert(digits[i - start as int] == s@[i as int]);
                assert(!all_dec_digits(digits));
            }
            return None;
        }
        let d = (cv - 48) as u64;
        proof {
            let prev = s@.subrange(start as int, i as int);
            let cur = s@.subrange(start as int, i + 1);
            assert(cur.drop_last() =~= prev);
            assert(cur.last() == s@[i as int]);
            assert(dec_value(cur) == acc * 10 + d);
        }
        let next = match acc.checked_mul(10) {
            Some(m) => m.checked_add(d),
            None => None,
        };
        match next {
            Some(v) => {
                acc = v;
            },
            None => {
                proof {
                    let digits = dec_digits_of(s@);
                    assert(digits == s@.subrange(start as int, n as int));
                    if all_dec_digits(digits) {
                        assert(digits.subrange(0, i + 1 - start as int) =~= s@.subrange(
                            start as int,
                            i + 1,
                        ));
                        lemma_dec_value_prefix_le(digits, i + 1 - start as int);
                        assert(dec_value(digits) > u64::MAX);
                    }
                }
                return None;
            },
        }
        i = i + 1;
    }
    proof {
        let digits = dec_digits_of(s@);
        assert(digits == s@.subrange(start as int, n as int));
        assert(forall|k: int| 0 <= k < digits.len() ==> is_dec_digit(#[trigger] digits[k]));
        assert(all_dec_digits(digits));
        assert(dec_value(digits) == acc as int);
    }
    Some(acc)
}

/// Interprets a token list as one operation request.
///
/// `send <amount> <address>` yields `Send` once the amount reads as an
/// unsigned 64-bit decimal; `balance` yields `Balance`; anything else is a
/// textual parse failure naming the problem.
pub fn parse_cli_args(args: &[String]) -> (r: Result<CliCommand, BitcoinError>)
    ensures
        ({
            let a = args@;
            if a.len() == 0 {
                r matches Err(BitcoinError::ParseError(m)) && m@ == "No command provided"@
            } else if a[0]@ == "send"@ {
                if a.len() < 3 {
                    r matches Err(BitcoinError::ParseError(m)) && m@
                        == "Missing arguments for send"@
                } else {
                    match spec_parse_u64(a[1]@) {
                        Some(v) => r matches Ok(c) && (c matches CliCommand::Send {
                            amount,
                            address,
                        } && amount == v && address@ == a[2]@),
                        None => r == Err::<CliCommand, BitcoinError>(BitcoinError::InvalidAmount),
                    }
                }
            } else if a[0]@ == "balance"@ {
                r matches Ok(c) && c is Balance
            } else {
                r matches Err(BitcoinError::ParseError(m)) && m@ == "Unknown command"@
            }
        }),
{
    if args.len() == 0 {
        return Err(BitcoinError::ParseError("No command provided".to_owned()));
    }
    let cmd = slice_index_get(args, 0);
    if *cmd == "send".to_owned() {
        if args.len() < 3 {
            return Err(BitcoinError::ParseError("Missing arguments for send".to_owned()));
        }
        match parse_u64_decimal(slice_index_get(args, 1).as_str()) {
            None => Err(BitcoinError::InvalidAmount),
            Some(amount) => {
                let address = slice_index_get(args, 2).clone();
                Ok(CliCommand::Send { amount, address })
            },
        }
    } else if *cmd == "balance".to_owned() {
        Ok(CliCommand::Balance)
    } else {
        Err(BitcoinError::ParseError("Unknown command".to_owned()))
    }
}

} // verus!
