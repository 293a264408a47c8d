//! The bridge error and catalog image identifiers (32 hexadecimal digits).
use vstd::prelude::*;
use vstd::string::*;

verus! {

/// Every failure crosses the bridge as a message.
#[derive(Debug)]
pub enum BridgeError {
    Failure { message: String },
}

impl BridgeError {
    pub open spec fn message(self) -> Seq<char> {
        match self {
            BridgeError::Failure { message } => message@,
        }
    }

    /// The message, as the host shows it.
    pub fn message_text(&self) -> (r: String)
        ensures
            r@ == self.message(),
    {
        match self {
            BridgeError::Failure { message } => message.clone(),
        }
    }
}

/// A failure carrying `message`.
pub fn failure(message: &str) -> (e: BridgeError)
    ensures
        e.message() == message@,
{
    BridgeError::Failure { message: String::from_str(message) }
}

/// A failure carrying an owned message.
pub fn failure_owned(message: String) -> (e: BridgeError)
    ensures
        e.message() == message@,
{
    BridgeError::Failure { message }
}

pub open spec fn is_hex_digit(b: u8) -> bool {
    (48 <= b <= 57) || (65 <= b <= 70) || (97 <= b <= 102)
}

pub open spec fn hex_digit_value(b: u8) -> int {
    if 48 <= b <= 57 {
        b - 48
    } else if 65 <= b <= 70 {
        b - 55
    } else {
        b - 87
    }
}

/// The number a string of hexadecimal digits denotes (most significant first).
pub open spec fn hex_value(s: Seq<u8>) -> nat
    decreases s.len(),
{
    if s.len() == 0 {
        0
    } else {
        (hex_value(s.drop_last()) * 16 + hex_digit_value(s.last())) as nat
    }
}

pub open spec fn pow16(n: nat) -> nat
    decreases n,
{
    if n == 0 {
        1
    } else {
        16 * pow16((n - 1) as nat)
    }
}

/// A well-formed image id: exactly 32 bytes, all hexadecimal digits.
pub open spec fn is_image_id(s: Seq<u8>) -> bool {
    s.len() == 32 && forall|i: int| 0 <= i < s.len() ==> is_hex_digit(#[trigger] s[i])
}

proof fn lemma_hex_bound(s: Seq<u8>)
    requires
        forall|i: int| 0 <= i < s.len() ==> is_hex_digit(#[trigger] s[i]),
    ensures
        hex_value(s) < pow16(s.len()),
    decreases s.len(),
{
    if s.len() > 0 {
        let p = s.drop_last();
        assert forall|i: int| 0 <= i < p.len() implies is_hex_digit(#[trigger] p[i]) by {
            assert(p[i] == s[i]);
        }
        lemma_hex_bound(p);
        assert(is_hex_digit(s[s.len() - 1]));
        let h = hex_value(p);
        let d = hex_digit_value(s.last());
        let q = pow16(p.len());
        assert(h * 16 + d < 16 * q) by (nonlinear_arith)
            requires
                h < q,
                0 <= d < 16,
        ;
    }
}

pub proof fn lemma_pow16_32()
    ensures
        pow16(32) == 0x1_0000_0000_0000_0000_0000_0000_0000_0000,
{
    reveal_with_fuel(pow16, 33);
}

/// Parses an image id: 32 hexadecimal digits (either case), as a 128-bit number.
pub fn parse_id(id: &str) -> (r: Result<u128, BridgeError>)
    ensures
        is_image_id(id.spec_bytes()) ==> r == Ok::<u128, BridgeError>(hex_value(id.spec_bytes()) as u128),
        !is_image_id(id.spec_bytes()) ==> r is Err && r->Err_0.message()
            == "image_id must contain 32 hexadecimal characters"@,
{
    let bytes = id.as_bytes();
    if bytes.len() != 32 {
        return Err(failure("image_id must contain 32 hexadecimal characters"));
    }
    let mut v: u128 = 0;
    let mut i: usize = 0;
    while i < 32
        invariant
            bytes@ == id.spec_bytes(),
            bytes@.len() == 32,
            i <= 32,
            forall|j: int| 0 <= j < i ==> is_hex_digit(#[trigger] bytes@[j]),
            v == hex_value(bytes@.take(i as int)),
        decreases 32 - i,
    {
        let b = bytes[i];
        let d: u128 = if 48 <= b && b <= 57 {
            (b - 48) as u128
        } else if 65 <= b && b <= 70 {
            (b - 55) as u128
        } else if 97 <= b && b <= 102 {
            (b - 87) as u128
        } else {
            return Err(failure("image_id must contain 32 hexadecimal characters"));
        };
        proof {
            let t = bytes@.take(i + 1);
            assert(t.drop_last() =~= bytes@.take(i as int));
            assert(t.last() == b);
            assert forall|j: int| 0 <= j < t.len() implies is_hex_digit(#[trigger] t[j]) by {
                assert(t[j] == bytes@[j]);
            }
            lemma_hex_bound(t);
            lemma_pow16_32();
            assert(pow16(t.len()) <= pow16(32)) by {
                lemma_pow16_mono(t.len(), 32);
            }
        }
        v = v * 16 + d;
        i = i + 1;
    }
    proof {
        assert(bytes@.take(32) =~= bytes@);
    }
    Ok(v)
}

proof fn lemma_pow16_mono(a: nat, b: nat)
    requires
        a <= b,
    ensures
        pow16(a) <= pow16(b),
    decreases b,
{
    if a < b {
        lemma_pow16_mono(a, (b - 1) as nat);
    }
}

} // verus!
