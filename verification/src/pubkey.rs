//! Validator and wallet addresses, and their base58 text.

use std::str::FromStr;
use vstd::prelude::*;

verus! {

/// The address of an account: 32 bytes.
#[derive(Debug, Clone, Copy, PartialEq, Eq)]
pub struct Pubkey {
    pub bytes: [u8; 32],
}

impl View for Pubkey {
    type V = Seq<u8>;

    open spec fn view(&self) -> Seq<u8> {
        self.bytes@
    }
}

/// The value of `c` as a base58 digit, or -1 if it is none. The alphabet is the digits and
/// letters of ASCII in their order, without `0`, `I`, `O` and `l`.
pub open spec fn base58_digit(c: char) -> int {
    if '1' <= c <= '9' {
        c as int - '1' as int
    } else if 'A' <= c <= 'H' {
        c as int - 'A' as int + 9
    } else if 'J' <= c <= 'N' {
        c as int - 'J' as int + 17
    } else if 'P' <= c <= 'Z' {
        c as int - 'P' as int + 22
    } else if 'a' <= c <= 'k' {
        c as int - 'a' as int + 33
    } else if 'm' <= c <= 'z' {
        c as int - 'm' as int + 44
    } else {
        -1
    }
}

/// The number that `s` writes in base 58.
pub open spec fn base58_value(s: Seq<char>) -> int
    decreases s.len(),
{
    if s.len() == 0 {
        0
    } else {
        base58_value(s.drop_last()) * 58 + base58_digit(s.last())
    }
}

/// The number that `b` writes in base 256.
pub open spec fn bytes_value(b: Seq<u8>) -> int
    decreases b.len(),
{
    if b.len() == 0 {
        0
    } else {
        bytes_value(b.drop_last()) * 256 + b.last()
    }
}

/// How many times `x` stands at the beginning of `s`.
pub open spec fn leading<T>(s: Seq<T>, x: T) -> int
    decreases s.len(),
{
    if s.len() == 0 {
        0
    } else {
        let n = leading(s.drop_last(), x);
        if n == s.len() - 1 && s.last() == x {
            n + 1
        } else {
            n
        }
    }
}

/// Whether `s` is the base58 text of the bytes `b`: both write the same number, and `s`
/// begins with as many zero digits as `b` does with zero bytes.
pub open spec fn is_base58_text(s: Seq<char>, b: Seq<u8>) -> bool {
    &&& forall|i: int| 0 <= i < s.len() ==> base58_digit(#[trigger] s[i]) >= 0
    &&& leading(s, '1') == leading(b, 0u8)
    &&& base58_value(s) == bytes_value(b)
}

/// Whether `s` is the base58 text of the address `b`.
pub open spec fn is_pubkey_text(s: Seq<char>, b: Seq<u8>) -> bool {
    b.len() == 32 && is_base58_text(s, b)
}

/// The base58 text of the address `b`.
pub open spec fn pubkey_text(b: Seq<u8>) -> Seq<char> {
    choose|s: Seq<char>| is_pubkey_text(s, b)
}

/// The address whose text is `s`, if there is one.
pub open spec fn pubkey_of(s: Seq<char>) -> Option<Seq<u8>> {
    if exists|b: Seq<u8>| is_pubkey_text(s, b) {
        Some(choose|b: Seq<u8>| is_pubkey_text(s, b))
    } else {
        None
    }
}

/// `solana_sdk::pubkey::ParsePubkeyError`: why a text is not that of an address. Nothing is read
/// out of it.
#[verifier::external_type_specification]
#[verifier::external_body]
pub struct ExParsePubkeyError(solana_sdk::pubkey::ParsePubkeyError);

/// `solana_sdk::pubkey::Pubkey::from_str`: reads the text of an address. It gives the
/// address whose base58 text `s` is, and an error where `s` is the text of none.
#[verifier::external_body]
fn sdk_pubkey_from_str(s: &str) -> (r: Result<Pubkey, solana_sdk::pubkey::ParsePubkeyError>)
    ensures
        r matches Ok(key) ==> is_pubkey_text(s@, key@),
        r is Err ==> forall|b: Seq<u8>| !is_pubkey_text(s@, b),
{
    solana_sdk::pubkey::Pubkey::from_str(s).map(|key| Pubkey { bytes: key.to_bytes() })
}

/// The `Display` of `solana_sdk::pubkey::Pubkey`: writes the base58 text of an address.
#[verifier::external_body]
fn sdk_pubkey_to_string(key: &Pubkey) -> (r: String)
    ensures
        is_pubkey_text(r@, key@),
{
    solana_sdk::pubkey::Pubkey::new_from_array(key.bytes).to_string()
}

proof fn lemma_bytes_value_injective(a: Seq<u8>, b: Seq<u8>)
    requires
        a.len() == b.len(),
        bytes_value(a) == bytes_value(b),
    ensures
        a == b,
    decreases a.len(),
{
    if a.len() > 0 {
        lemma_bytes_value_injective(a.drop_last(), b.drop_last());
        assert(a == a.drop_last().push(a.last()));
        assert(b == b.drop_last().push(b.last()));
    } else {
        assert(a == b);
    }
}

/// A text is the text of one address at most.
pub proof fn law_text_names_one_key(s: Seq<char>, a: Seq<u8>, b: Seq<u8>)
    requires
        is_pubkey_text(s, a),
        is_pubkey_text(s, b),
    ensures
        a == b,
{
    lemma_bytes_value_injective(a, b);
}

proof fn lemma_leading_bounds<T>(s: Seq<T>, x: T)
    ensures
        0 <= leading(s, x) <= s.len(),
        forall|i: int| 0 <= i < leading(s, x) ==> s[i] == x,
    decreases s.len(),
{
    if s.len() > 0 {
        lemma_leading_bounds(s.drop_last(), x);
        assert forall|i: int| 0 <= i < leading(s, x) implies s[i] == x by {
            if i < leading(s.drop_last(), x) {
                assert(s.drop_last()[i] == x);
            }
        }
    }
}

proof fn lemma_base58_zero(s: Seq<char>)
    requires
        forall|i: int| 0 <= i < s.len() ==> base58_digit(#[trigger] s[i]) >= 0,
    ensures
        base58_value(s) >= 0,
        base58_value(s) == 0 <==> leading(s, '1') == s.len(),
    decreases s.len(),
{
    if s.len() > 0 {
        let t = s.drop_last();
        assert forall|i: int| 0 <= i < t.len() implies base58_digit(#[trigger] t[i]) >= 0 by {
            assert(t[i] == s[i]);
        }
        lemma_base58_zero(t);
        lemma_leading_bounds(t, '1');
        assert(base58_digit(s[s.len() - 1]) >= 0);
    }
}

/// The empty text is the text of no address.
pub proof fn lemma_empty_is_no_key(b: Seq<u8>)
    ensures
        !is_pubkey_text(Seq::empty(), b),
{
    if is_pubkey_text(Seq::empty(), b) {
        lemma_zero_bytes(b);
    }
}

proof fn lemma_zero_bytes(b: Seq<u8>)
    ensures
        bytes_value(b) >= 0,
        bytes_value(b) == 0 ==> leading(b, 0u8) == b.len(),
    decreases b.len(),
{
    if b.len() > 0 {
        lemma_zero_bytes(b.drop_last());
    }
}

/// An address has one text at most.
pub proof fn law_key_has_one_text(s: Seq<char>, t: Seq<char>, b: Seq<u8>)
    requires
        is_base58_text(s, b),
        is_base58_text(t, b),
    ensures
        s == t,
{
    lemma_same_text(s, t);
}

proof fn lemma_same_text(s: Seq<char>, t: Seq<char>)
    requires
        forall|i: int| 0 <= i < s.len() ==> base58_digit(#[trigger] s[i]) >= 0,
        forall|i: int| 0 <= i < t.len() ==> base58_digit(#[trigger] t[i]) >= 0,
        leading(s, '1') == leading(t, '1'),
        base58_value(s) == base58_value(t),
    ensures
        s == t,
    decreases s.len(),
{
    lemma_base58_zero(s);
    lemma_base58_zero(t);
    lemma_leading_bounds(s, '1');
    lemma_leading_bounds(t, '1');
    if base58_value(s) == 0 {
        assert(s == t);
    } else {
        let s1 = s.drop_last();
        let t1 = t.drop_last();
        assert forall|i: int| 0 <= i < s1.len() implies base58_digit(#[trigger] s1[i]) >= 0 by {
            assert(s1[i] == s[i]);
        }
        assert forall|i: int| 0 <= i < t1.len() implies base58_digit(#[trigger] t1[i]) >= 0 by {
            assert(t1[i] == t[i]);
        }
        assert(base58_digit(s[s.len() - 1]) >= 0);
        assert(base58_digit(t[t.len() - 1]) >= 0);
        lemma_same_text(s1, t1);
        assert(s == s1.push(s.last()));
        assert(t == t1.push(t.last()));
    }
}

/// The character of the base58 digit `d`.
spec fn base58_char(d: int) -> char {
    if d < 9 {
        (d + '1' as int) as char
    } else if d < 17 {
        (d - 9 + 'A' as int) as char
    } else if d < 22 {
        (d - 17 + 'J' as int) as char
    } else if d < 33 {
        (d - 22 + 'P' as int) as char
    } else if d < 44 {
        (d - 33 + 'a' as int) as char
    } else {
        (d - 44 + 'm' as int) as char
    }
}

/// `n` in base 58, without leading zeros.
spec fn base58_digits(n: nat) -> Seq<char>
    decreases n,
{
    if n == 0 {
        Seq::empty()
    } else {
        base58_digits(n / 58).push(base58_char((n % 58) as int))
    }
}

proof fn lemma_base58_digits(n: nat)
    ensures
        forall|i: int|
            0 <= i < base58_digits(n).len() ==> base58_digit(#[trigger] base58_digits(n)[i]) >= 0,
        base58_value(base58_digits(n)) == n,
        leading(base58_digits(n), '1') == 0,
        n > 0 ==> base58_digits(n).len() > 0,
    decreases n,
{
    if n > 0 {
        lemma_base58_digits(n / 58);
        let s = base58_digits(n);
        assert(s.drop_last() == base58_digits(n / 58));
        assert(base58_digit(s.last()) == n % 58);
    }
}

proof fn lemma_leading_ones(k: nat, t: Seq<char>)
    requires
        forall|i: int| 0 <= i < t.len() ==> base58_digit(#[trigger] t[i]) >= 0,
        leading(t, '1') == 0,
    ensures
        leading(Seq::new(k, |i: int| '1') + t, '1') == k,
        base58_value(Seq::new(k, |i: int| '1') + t) == base58_value(t),
    decreases k + t.len(),
{
    let ones = Seq::new(k, |i: int| '1');
    let s = ones + t;
    if t.len() == 0 {
        assert(s == ones);
        if k > 0 {
            let fewer = Seq::new((k - 1) as nat, |i: int| '1');
            lemma_leading_ones((k - 1) as nat, t);
            assert(fewer + t == fewer);
            assert(s.drop_last() == fewer);
        }
    } else {
        lemma_leading_bounds(t.drop_last(), '1');
        lemma_leading_ones(k, t.drop_last());
        assert(s.drop_last() == ones + t.drop_last());
        if t.len() == 1 {
            assert(t.drop_last() == Seq::<char>::empty());
        }
    }
}

/// Every address has a text.
pub proof fn law_every_key_has_a_text(b: Seq<u8>)
    requires
        b.len() == 32,
    ensures
        is_pubkey_text(pubkey_text(b), b),
{
    lemma_zero_bytes(b);
    lemma_leading_bounds(b, 0u8);
    let n = bytes_value(b) as nat;
    let k = leading(b, 0u8) as nat;
    let t = base58_digits(n);
    lemma_base58_digits(n);
    lemma_leading_ones(k, t);
    let s = Seq::new(k, |i: int| '1') + t;
    assert forall|i: int| 0 <= i < s.len() implies base58_digit(#[trigger] s[i]) >= 0 by {
        if i >= k {
            assert(s[i] == t[i - k]);
        }
    }
    assert(is_pubkey_text(s, b));
}

/// The text of an address reads back as that address.
pub proof fn law_text_reads_back(s: Seq<char>, b: Seq<u8>)
    requires
        is_pubkey_text(s, b),
    ensures
        pubkey_of(s) == Some(b),
{
    law_text_names_one_key(s, pubkey_of(s)->0, b);
}

impl Pubkey {
    /// The address whose base58 text is `s`.
    pub fn from_text(s: &str) -> (r: Option<Pubkey>)
        ensures
            pubkey_of(s@) == match r {
                Some(key) => Some(key@),
                None => None,
            },
    {
        match sdk_pubkey_from_str(s) {
            Ok(key) => {
                proof {
                    law_text_reads_back(s@, key@);
                }
                Some(key)
            },
            Err(_) => None,
        }
    }

    /// The base58 text of the address.
    pub fn to_text(&self) -> (r: String)
        ensures
            r@ == pubkey_text(self@),
            is_pubkey_text(r@, self@),
            pubkey_of(r@) == Some(self@),
    {
        let r: String = sdk_pubkey_to_string(self);
        proof {
            law_text_reads_back(r@, self@);
            law_key_has_one_text(r@, pubkey_text(self@), self@);
        }
        r
    }

    /// Whether the two addresses have the same bytes.
    pub fn same(&self, other: &Pubkey) -> (r: bool)
        ensures
            r == (self@ == other@),
            r == (*self == *other),
    {
        let mut i: usize = 0;
        while i < 32
            invariant
                i <= 32,
                forall|j: int| 0 <= j < i ==> self.bytes@[j] == other.bytes@[j],
            decreases 32 - i,
        {
            if self.bytes[i] != other.bytes[i] {
                assert(self@[i as int] != other@[i as int]);
                return false;
            }
            i += 1;
        }
        assert(self@ == other@);
        assert(self.bytes == other.bytes);
        true
    }
}

/// The base58 digits are the characters of the alphabet, each with its place in it, and no other
/// characters.
pub proof fn law_digits_are_the_alphabet(c: char)
    ensures
        ({
            let alphabet = "123456789ABCDEFGHJKLMNPQRSTUVWXYZabcdefghijkmnopqrstuvwxyz"@;
            &&& alphabet.len() == 58
            &&& base58_digit(c) == -1 || (0 <= base58_digit(c) < 58 && alphabet[base58_digit(c)]
                == c)
            &&& forall|i: int| 0 <= i < 58 ==> base58_digit(#[trigger] alphabet[i]) == i
        }),
{
    reveal_strlit("123456789ABCDEFGHJKLMNPQRSTUVWXYZabcdefghijkmnopqrstuvwxyz");
}

/// One more digit, or byte, adds itself to 58 times, or 256 times, the number before it.
pub proof fn law_values_are_positional(s: Seq<char>, c: char, b: Seq<u8>, x: u8)
    ensures
        base58_value(Seq::empty()) == 0,
        base58_value(s.push(c)) == 58 * base58_value(s) + base58_digit(c),
        bytes_value(Seq::empty()) == 0,
        bytes_value(b.push(x)) == 256 * bytes_value(b) + x,
{
    assert(s.push(c).drop_last() == s);
    assert(b.push(x).drop_last() == b);
}

/// The leading run of `x` is all `x`, and it ends with the sequence or before something else.
pub proof fn law_leading_is_the_first_run<T>(s: Seq<T>, x: T)
    ensures
        0 <= leading(s, x) <= s.len(),
        forall|i: int| 0 <= i < leading(s, x) ==> s[i] == x,
        leading(s, x) < s.len() ==> s[leading(s, x)] != x,
    decreases s.len(),
{
    lemma_leading_bounds(s, x);
    if s.len() > 0 {
        law_leading_is_the_first_run(s.drop_last(), x);
        lemma_leading_bounds(s.drop_last(), x);
    }
}

/// A text is that of an address exactly where the address has 32 bytes, the text is digits,
/// both write the same number, and both begin with as many zeros. It is the text of the address
/// that is read from it, and a key is seen as its bytes.
pub proof fn law_text_and_address_write_one_number(s: Seq<char>, b: Seq<u8>, key: Pubkey)
    ensures
        pubkey_of(s) == Some(b) <==> {
            &&& b.len() == 32
            &&& forall|i: int| 0 <= i < s.len() ==> base58_digit(#[trigger] s[i]) >= 0
            &&& base58_value(s) == bytes_value(b)
            &&& leading(s, '1') == leading(b, 0u8)
        },
        b.len() == 32 ==> (pubkey_text(b) == s <==> pubkey_of(s) == Some(b)),
        key@ == key.bytes@,
{
    if is_pubkey_text(s, b) {
        law_text_reads_back(s, b);
        law_key_has_one_text(s, pubkey_text(b), b);
    }
    if b.len() == 32 {
        law_every_key_has_a_text(b);
        law_text_reads_back(pubkey_text(b), b);
    }
}

} // verus!
