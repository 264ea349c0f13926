//! Tool identities and socket addresses.
//!
//! An identity is `"<broker-pid>-<ordinal>"` with the ordinal zero-padded to
//! width 3; ordinals come from one monotonic counter, so identities are never
//! reused within a broker's lifetime. Addresses are `unix://<path>` strings.

use vstd::prelude::*;
use vstd::arithmetic::div_mod::lemma_fundamental_div_mod;

verus! {

/// The decimal digit character for `d` in `0..=9`.
pub open spec fn digit_char(d: int) -> char {
    if d == 0 { '0' }
    else if d == 1 { '1' }
    else if d == 2 { '2' }
    else if d == 3 { '3' }
    else if d == 4 { '4' }
    else if d == 5 { '5' }
    else if d == 6 { '6' }
    else if d == 7 { '7' }
    else if d == 8 { '8' }
    else { '9' }
}

/// The value of a decimal digit character; other characters count as 9.
pub open spec fn digit_val(c: char) -> int {
    if c == '0' { 0 }
    else if c == '1' { 1 }
    else if c == '2' { 2 }
    else if c == '3' { 3 }
    else if c == '4' { 4 }
    else if c == '5' { 5 }
    else if c == '6' { 6 }
    else if c == '7' { 7 }
    else if c == '8' { 8 }
    else { 9 }
}

/// Whether `c` is a decimal digit.
pub open spec fn is_digit(c: char) -> bool {
    c == '0' || c == '1' || c == '2' || c == '3' || c == '4' || c == '5' || c == '6'
        || c == '7' || c == '8' || c == '9'
}

/// The decimal digits of `n`, most significant first, without leading zeros
/// (just `"0"` for zero).
pub open spec fn dec_digits(n: nat) -> Seq<char>
    decreases n,
{
    if n < 10 {
        seq![digit_char(n as int)]
    } else {
        dec_digits(n / 10) + seq![digit_char((n % 10) as int)]
    }
}

/// `s` left-padded with `'0'` to at least width 3.
pub open spec fn padded3(s: Seq<char>) -> Seq<char> {
    if s.len() >= 3 {
        s
    } else if s.len() == 2 {
        seq!['0'] + s
    } else if s.len() == 1 {
        seq!['0', '0'] + s
    } else {
        seq!['0', '0', '0']
    }
}

/// The identity text assigned to ordinal `n` by the broker with pid `pid`.
pub open spec fn spec_tool_id(pid: u64, n: u64) -> Seq<char> {
    dec_digits(pid as nat) + seq!['-'] + padded3(dec_digits(n as nat))
}

/// The numeric value of a digit string, read most significant first.
pub open spec fn dec_val(s: Seq<char>) -> int
    decreases s.len(),
{
    if s.len() == 0 {
        0
    } else {
        dec_val(s.drop_last()) * 10 + digit_val(s.last())
    }
}

/// Every character of a decimal rendering is a digit, and there is at least
/// one of them.
pub proof fn lemma_dec_digits_shape(n: nat)
    ensures
        dec_digits(n).len() >= 1,
        forall|i: int| 0 <= i < dec_digits(n).len() ==> is_digit(#[trigger] dec_digits(n)[i]),
        n < 10 ==> dec_digits(n).len() == 1,
        10 <= n < 100 ==> dec_digits(n).len() == 2,
        n >= 100 ==> dec_digits(n).len() >= 3,
    decreases n,
{
    if n >= 10 {
        lemma_dec_digits_shape(n / 10);
    }
}

/// Reading back the decimal rendering of `n` gives `n`.
pub proof fn lemma_dec_digits_val(n: nat)
    ensures
        dec_val(dec_digits(n)) == n,
    decreases n,
{
    if n < 10 {
        assert(dec_digits(n).drop_last() =~= Seq::<char>::empty());
        assert(dec_val(Seq::<char>::empty()) == 0);
        assert(dec_digits(n).last() == digit_char(n as int));
    } else {
        lemma_dec_digits_val(n / 10);
        let whole = dec_digits(n / 10) + seq![digit_char((n % 10) as int)];
        assert(whole.drop_last() =~= dec_digits(n / 10));
        assert(whole.last() == digit_char((n % 10) as int));
        lemma_fundamental_div_mod(n as int, 10);
    }
}

/// Zero-padding does not change the numeric value of a digit string.
pub proof fn lemma_prepend_zero_val(s: Seq<char>)
    ensures
        dec_val(seq!['0'] + s) == dec_val(s),
    decreases s.len(),
{
    if s.len() == 0 {
        assert((seq!['0'] + s).drop_last() =~= Seq::<char>::empty());
        assert((seq!['0'] + s).last() == '0');
        assert(dec_val(Seq::<char>::empty()) == 0);
    } else {
        assert((seq!['0'] + s).drop_last() =~= seq!['0'] + s.drop_last());
        assert((seq!['0'] + s).last() == s.last());
        lemma_prepend_zero_val(s.drop_last());
    }
}

/// Padding to width 3 does not change the numeric value.
pub proof fn lemma_padded3_val(s: Seq<char>)
    ensures
        dec_val(padded3(s)) == dec_val(s),
{
    if s.len() >= 3 {
    } else if s.len() == 2 {
        lemma_prepend_zero_val(s);
    } else if s.len() == 1 {
        lemma_prepend_zero_val(s);
        lemma_prepend_zero_val(seq!['0'] + s);
        assert(seq!['0'] + (seq!['0'] + s) =~= seq!['0', '0'] + s);
    } else {
        assert(padded3(s) =~= seq!['0'] + (seq!['0'] + (seq!['0'] + s)));
        lemma_prepend_zero_val(s);
        lemma_prepend_zero_val(seq!['0'] + s);
        lemma_prepend_zero_val(seq!['0'] + (seq!['0'] + s));
    }
}

/// The shape of an identity: the broker's pid in decimal, a dash, and a
/// zero-padded ordinal of width at least 3, digits throughout.
pub proof fn lemma_tool_id_shape(pid: u64, n: u64)
    ensures
        ({
            let id = spec_tool_id(pid, n);
            let prefix = dec_digits(pid as nat);
            let suffix = padded3(dec_digits(n as nat));
            &&& id.len() == prefix.len() + 1 + suffix.len()
            &&& id.subrange(0, prefix.len() as int) == prefix
            &&& id[prefix.len() as int] == '-'
            &&& id.subrange(prefix.len() as int + 1, id.len() as int) == suffix
            &&& suffix.len() >= 3
            &&& forall|i: int| 0 <= i < prefix.len() ==> is_digit(#[trigger] prefix[i])
            &&& forall|i: int| 0 <= i < suffix.len() ==> is_digit(#[trigger] suffix[i])
        }),
{
    let id = spec_tool_id(pid, n);
    let prefix = dec_digits(pid as nat);
    let digits = dec_digits(n as nat);
    let suffix = padded3(digits);
    lemma_dec_digits_shape(pid as nat);
    lemma_dec_digits_shape(n as nat);
    assert(id.subrange(0, prefix.len() as int) =~= prefix);
    assert(id.subrange(prefix.len() as int + 1, id.len() as int) =~= suffix);
    assert(forall|i: int| 0 <= i < suffix.len() ==> is_digit(#[trigger] suffix[i])) by {
        assert(forall|i: int| 0 <= i < digits.len() ==> is_digit(#[trigger] digits[i]));
    }
}

/// Law: one broker never issues the same identity for two ordinals.
pub proof fn lemma_tool_id_injective(pid: u64, a: u64, b: u64)
    requires
        spec_tool_id(pid, a) == spec_tool_id(pid, b),
    ensures
        a == b,
{
    let prefix = dec_digits(pid as nat);
    let sa = padded3(dec_digits(a as nat));
    let sb = padded3(dec_digits(b as nat));
    let ida = spec_tool_id(pid, a);
    let idb = spec_tool_id(pid, b);
    lemma_tool_id_shape(pid, a);
    lemma_tool_id_shape(pid, b);
    assert(ida.subrange(prefix.len() as int + 1, ida.len() as int)
        == idb.subrange(prefix.len() as int + 1, idb.len() as int));
    assert(sa == sb);
    lemma_padded3_val(dec_digits(a as nat));
    lemma_padded3_val(dec_digits(b as nat));
    lemma_dec_digits_val(a as nat);
    lemma_dec_digits_val(b as nat);
}

/// Law: the numeric value of an identity's zero-padded suffix is exactly
/// the ordinal it was assigned for, so suffixes read back in acceptance
/// order are strictly increasing.
pub proof fn lemma_tool_id_suffix_value(n: u64)
    ensures
        dec_val(padded3(dec_digits(n as nat))) == n,
{
    lemma_padded3_val(dec_digits(n as nat));
    lemma_dec_digits_val(n as nat);
}

/// One decimal digit as a string slice.
fn digit_str(d: u64) -> (r: &'static str)
    requires
        d < 10,
    ensures
        r@ == seq![digit_char(d as int)],
{
    let s: &'static str = if d == 0 { "0" }
    else if d == 1 { "1" }
    else if d == 2 { "2" }
    else if d == 3 { "3" }
    else if d == 4 { "4" }
    else if d == 5 { "5" }
    else if d == 6 { "6" }
    else if d == 7 { "7" }
    else if d == 8 { "8" }
    else { "9" };
    proof {
        reveal_strlit("0");
        reveal_strlit("1");
        reveal_strlit("2");
        reveal_strlit("3");
        reveal_strlit("4");
        reveal_strlit("5");
        reveal_strlit("6");
        reveal_strlit("7");
        reveal_strlit("8");
        reveal_strlit("9");
        assert(s@ =~= seq![digit_char(d as int)]);
    }
    s
}

/// Render `n` in decimal.
pub fn u64_to_dec(n: u64) -> (r: String)
    ensures
        r@ == dec_digits(n as nat),
    decreases n,
{
    if n < 10 {
        String::from_str(digit_str(n))
    } else {
        let mut r = u64_to_dec(n / 10);
        r.append(digit_str(n % 10));
        proof {
            assert(r@ =~= dec_digits(n as nat));
        }
        r
    }
}

/// Render `n` in decimal, zero-padded to at least width 3.
pub fn u64_to_dec_padded3(n: u64) -> (r: String)
    ensures
        r@ == padded3(dec_digits(n as nat)),
{
    proof {
        lemma_dec_digits_shape(n as nat);
    }
    let mut r = if n < 10 {
        let mut p = String::from_str("00");
        proof {
            reveal_strlit("00");
        }
        p
    } else if n < 100 {
        let mut p = String::from_str("0");
        proof {
            reveal_strlit("0");
        }
        p
    } else {
        String::new()
    };
    let digits = u64_to_dec(n);
    r.append(digits.as_str());
    proof {
        assert(r@ =~= padded3(dec_digits(n as nat)));
    }
    r
}

/// The identity text for ordinal `n` under broker pid `pid`.
pub fn make_tool_id(pid: u64, n: u64) -> (r: String)
    ensures
        r@ == spec_tool_id(pid, n),
{
    let mut r = u64_to_dec(pid);
    r.append("-");
    proof {
        reveal_strlit("-");
    }
    let suffix = u64_to_dec_padded3(n);
    r.append(suffix.as_str());
    proof {
        assert(r@ =~= spec_tool_id(pid, n));
    }
    r
}

/// The data endpoint address a tool must listen on, from its identity.
pub open spec fn spec_data_address(id: Seq<char>) -> Seq<char> {
    "unix:///tmp/gbe-"@ + id + ".sock"@
}

/// The listen address reserved for a relay under ordinal `n`.
pub open spec fn spec_relay_address(pid: u64, n: u64) -> Seq<char> {
    "unix:///tmp/gbe-proxy-"@ + dec_digits(pid as nat) + seq!['-']
        + padded3(dec_digits(n as nat)) + ".sock"@
}

/// Build the data endpoint address for `tool_id`.
pub fn make_data_address(tool_id: &str) -> (r: String)
    ensures
        r@ == spec_data_address(tool_id@),
{
    let mut r = String::from_str("unix:///tmp/gbe-");
    r.append(tool_id);
    r.append(".sock");
    proof {
        assert(r@ =~= spec_data_address(tool_id@));
    }
    r
}

/// Build the listen address for a relay under ordinal `n`.
pub fn make_relay_address(pid: u64, n: u64) -> (r: String)
    ensures
        r@ == spec_relay_address(pid, n),
{
    let mut r = String::from_str("unix:///tmp/gbe-proxy-");
    let pid_digits = u64_to_dec(pid);
    r.append(pid_digits.as_str());
    r.append("-");
    proof {
        reveal_strlit("-");
    }
    let suffix = u64_to_dec_padded3(n);
    r.append(suffix.as_str());
    r.append(".sock");
    proof {
        assert(r@ =~= spec_relay_address(pid, n));
    }
    r
}

/// Whether `addr` starts with the `unix://` scheme.
pub open spec fn has_unix_scheme(addr: Seq<char>) -> bool {
    addr.len() >= 7 && addr.subrange(0, 7) == "unix://"@
}

/// Strip the `unix://` scheme from an address, leaving the filesystem path.
pub fn strip_unix_scheme(addr: &str) -> (r: Option<&str>)
    ensures
        match r {
            Some(path) => has_unix_scheme(addr@)
                && path@ == addr@.subrange(7, addr@.len() as int),
            None => !has_unix_scheme(addr@),
        },
{
    let len = addr.unicode_len();
    proof {
        reveal_strlit("unix://");
    }
    if len < 7 {
        return None;
    }
    let ok = addr.get_char(0) == 'u' && addr.get_char(1) == 'n' && addr.get_char(2) == 'i'
        && addr.get_char(3) == 'x' && addr.get_char(4) == ':' && addr.get_char(5) == '/'
        && addr.get_char(6) == '/';
    if ok {
        proof {
            assert(addr@.subrange(0, 7) =~= "unix://"@);
        }
        Some(addr.substring_char(7, len))
    } else {
        proof {
            if addr@.subrange(0, 7) == "unix://"@ {
                assert(addr@[0] == addr@.subrange(0, 7)[0]);
                assert(addr@[1] == addr@.subrange(0, 7)[1]);
                assert(addr@[2] == addr@.subrange(0, 7)[2]);
                assert(addr@[3] == addr@.subrange(0, 7)[3]);
                assert(addr@[4] == addr@.subrange(0, 7)[4]);
                assert(addr@[5] == addr@.subrange(0, 7)[5]);
                assert(addr@[6] == addr@.subrange(0, 7)[6]);
            }
        }
        None
    }
}

} // verus!
