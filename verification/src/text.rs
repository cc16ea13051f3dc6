use vstd::prelude::*;

verus! {

/// Each byte read as the character with the same code.
pub open spec fn ascii_text(bytes: Seq<u8>) -> Seq<char> {
    Seq::new(bytes.len(), |i: int| bytes[i] as char)
}

/// Every byte is below 128.
pub open spec fn all_ascii(bytes: Seq<u8>) -> bool {
    forall|i: int| 0 <= i < bytes.len() ==> #[trigger] bytes[i] < 128
}

/// What `String::from_utf8_lossy` makes of `bytes`.
pub uninterp spec fn lossy_text(bytes: Seq<u8>) -> Seq<char>;

/// Decodes `bytes` as UTF-8, with U+FFFD for each invalid sequence.
///
/// Calls `String::from_utf8_lossy`. The contract claims that the result
/// depends on the bytes alone, and that ASCII bytes decode to the characters
/// with the same codes, as the std documentation states for valid UTF-8.
#[verifier::external_body]
pub(crate) fn text_from_bytes(bytes: &[u8]) -> (s: String)
    ensures
        s@ == lossy_text(bytes@),
        all_ascii(bytes@) ==> s@ == ascii_text(bytes@),
{
    String::from_utf8_lossy(bytes).into_owned()
}

/// The decimal digits of `n`, most significant first, as ASCII bytes.
pub open spec fn digit_bytes(n: nat) -> Seq<u8>
    decreases n,
{
    if n < 10 {
        seq![(48 + n) as u8]
    } else {
        digit_bytes(n / 10).push((48 + n % 10) as u8)
    }
}

/// The decimal spelling of `n`, with a leading `-` when it is negative.
pub open spec fn decimal(n: int) -> Seq<char> {
    if n < 0 {
        ascii_text(seq![45u8] + digit_bytes((-n) as nat))
    } else {
        ascii_text(digit_bytes(n as nat))
    }
}

proof fn lemma_digit_bytes_ascii(n: nat)
    ensures
        all_ascii(digit_bytes(n)),
    decreases n,
{
    if n >= 10 {
        lemma_digit_bytes_ascii(n / 10);
    }
}

fn push_digits(n: u64, out: &mut Vec<u8>)
    ensures
        final(out)@ == old(out)@ + digit_bytes(n as nat),
    decreases n,
{
    if n < 10 {
        out.push((48 + n) as u8);
        assert(final(out)@ =~= old(out)@ + digit_bytes(n as nat));
    } else {
        push_digits(n / 10, out);
        out.push((48 + n % 10) as u8);
        assert(final(out)@ =~= old(out)@ + digit_bytes(n as nat));
    }
}

/// The decimal spelling of `n`.
pub fn int_text(n: i64) -> (s: String)
    requires
        n > i64::MIN,
    ensures
        s@ == decimal(n as int),
{
    let mut bytes: Vec<u8> = Vec::new();
    if n < 0 {
        bytes.push(45);
        push_digits((-n) as u64, &mut bytes);
    } else {
        push_digits(n as u64, &mut bytes);
    }
    proof {
        let d = if n < 0 { (-n) as nat } else { n as nat };
        lemma_digit_bytes_ascii(d);
        if n < 0 {
            assert(bytes@ =~= seq![45u8] + digit_bytes(d));
        } else {
            assert(bytes@ =~= digit_bytes(d));
        }
    }
    text_from_bytes(bytes.as_slice())
}

/// The decimal spelling of `n`.
pub fn usize_text(n: usize) -> (s: String)
    ensures
        s@ == decimal(n as int),
{
    let mut bytes: Vec<u8> = Vec::new();
    push_digits(n as u64, &mut bytes);
    proof {
        lemma_digit_bytes_ascii(n as nat);
        assert(bytes@ =~= digit_bytes(n as nat));
    }
    text_from_bytes(bytes.as_slice())
}

/// `front`, then `middle`, then `back`.
pub fn framed(front: &str, middle: &str, back: &str) -> (s: String)
    ensures
        s@ == front@ + middle@ + back@,
{
    let mut s = String::from_str(front);
    s.append(middle);
    s.append(back);
    s
}

} // verus!
