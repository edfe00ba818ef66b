//! Names of the stages: hop identities, broadcast topics and point-to-point
//! addresses, all built from an index in decimal.
use vstd::prelude::*;

verus! {

/// The character of a decimal digit.
pub open spec fn digit_char(d: nat) -> char {
    if d == 0 {
        '0'
    } else if d == 1 {
        '1'
    } else if d == 2 {
        '2'
    } else if d == 3 {
        '3'
    } else if d == 4 {
        '4'
    } else if d == 5 {
        '5'
    } else if d == 6 {
        '6'
    } else if d == 7 {
        '7'
    } else if d == 8 {
        '8'
    } else {
        '9'
    }
}

/// Decimal digits of `n`, most significant first, without leading zeros.
pub open spec fn decimal(n: nat) -> Seq<char>
    decreases n,
{
    if n < 10 {
        seq![digit_char(n)]
    } else {
        decimal(n / 10).push(digit_char(n % 10))
    }
}

/// Identity that hop `index` writes into the records it forwards.
pub open spec fn hop_identity(index: nat) -> Seq<char> {
    seq!['r', 'e', 'l', 'a', 'y', ' ', 'h', 'o', 'p', ' '] + decimal(index)
}

/// Topic that hop `index` subscribes to.
pub open spec fn topic_of(index: nat) -> Seq<char> {
    seq!['b', 'e', 'n', 'c', 'h', '/', 'h', 'o', 'p'] + decimal(index)
}

/// Loopback address of a listener on `port`.
pub open spec fn address_of(port: nat) -> Seq<char> {
    seq!['1', '2', '7', '.', '0', '.', '0', '.', '1', ':'] + decimal(port)
}

/// Relies on `u32`'s `Display` (through `to_string`): its decimal digits, with
/// no sign and no padding.
#[verifier::external_body]
fn decimal_text(n: u32) -> (r: String)
    ensures
        r@ == decimal(n as nat),
{
    n.to_string()
}

/// `prefix` followed by the decimal digits of `n`.
fn with_decimal(prefix: &str, n: u32) -> (r: String)
    ensures
        r@ == prefix@ + decimal(n as nat),
{
    let digits = decimal_text(n);
    let head = prefix.to_owned();
    <String as vstd::string::StringExecFns>::concat(head, digits.as_str())
}

/// Identity of hop `index`: `relay hop <index>`.
pub fn hop_identity_text(index: u32) -> (r: String)
    ensures
        r@ == hop_identity(index as nat),
{
    let r = with_decimal("relay hop ", index);
    proof {
        reveal_strlit("relay hop ");
        assert(r@ =~= hop_identity(index as nat));
    }
    r
}

/// Topic of hop `index`: `bench/hop<index>`.
pub fn topic_name(index: u32) -> (r: String)
    ensures
        r@ == topic_of(index as nat),
{
    let r = with_decimal("bench/hop", index);
    proof {
        reveal_strlit("bench/hop");
        assert(r@ =~= topic_of(index as nat));
    }
    r
}

/// Point-to-point address of hop `index` for listeners numbered from
/// `base_port`; `None` where the port would pass 65535.
pub fn endpoint_address(base_port: u16, index: u32) -> (r: Option<String>)
    ensures
        base_port + index <= u16::MAX ==> r is Some && r->Some_0@ == address_of(
            (base_port + index) as nat,
        ),
        base_port + index > u16::MAX ==> r is None,
{
    if index > (u16::MAX - base_port) as u32 {
        return None;
    }
    let port: u32 = base_port as u32 + index;
    let r = with_decimal("127.0.0.1:", port);
    proof {
        reveal_strlit("127.0.0.1:");
        assert(r@ =~= address_of(port as nat));
    }
    Some(r)
}

} // verus!
