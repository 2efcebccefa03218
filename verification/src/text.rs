//! Values as text, in the form that error messages show them.
use crate::hash::Hash32;
use vstd::prelude::*;
use vstd::string::StringExecFns;

verus! {

/// One decimal digit.
pub open spec fn digit_text(d: nat) -> Seq<char> {
    if d == 0 {
        "0"@
    } else if d == 1 {
        "1"@
    } else if d == 2 {
        "2"@
    } else if d == 3 {
        "3"@
    } else if d == 4 {
        "4"@
    } else if d == 5 {
        "5"@
    } else if d == 6 {
        "6"@
    } else if d == 7 {
        "7"@
    } else if d == 8 {
        "8"@
    } else {
        "9"@
    }
}

/// A number in decimal.
pub open spec fn decimal(n: nat) -> Seq<char>
    decreases n,
{
    if n < 10 {
        digit_text(n)
    } else {
        decimal(n / 10) + digit_text(n % 10)
    }
}

/// Numbers in decimal, with a comma and a space between two.
pub open spec fn list_text(bytes: Seq<u8>) -> Seq<char>
    decreases bytes.len(),
{
    if bytes.len() == 0 {
        Seq::empty()
    } else if bytes.len() == 1 {
        decimal(bytes[0] as nat)
    } else {
        list_text(bytes.drop_last()) + ", "@ + decimal(bytes.last() as nat)
    }
}

/// A hash as a list of bytes in square brackets.
pub open spec fn hash_text(hash: Hash32) -> Seq<char> {
    "["@ + list_text(hash@) + "]"@
}

/// A string in double quotes, with what needs it escaped.
pub uninterp spec fn quoted(s: Seq<char>) -> Seq<char>;

/// `str`'s `Debug`, through `format!`: the string in double quotes with escapes, a function of the
/// string alone.
#[verifier::external_body]
pub(crate) fn quote(s: &str) -> (text: String)
    ensures
        text@ == quoted(s@),
{
    format!("{:?}", s)
}

fn push_digit(out: &mut String, d: u64)
    requires
        d < 10,
    ensures
        final(out)@ == old(out)@ + digit_text(d as nat),
{
    if d == 0 {
        out.append("0");
    } else if d == 1 {
        out.append("1");
    } else if d == 2 {
        out.append("2");
    } else if d == 3 {
        out.append("3");
    } else if d == 4 {
        out.append("4");
    } else if d == 5 {
        out.append("5");
    } else if d == 6 {
        out.append("6");
    } else if d == 7 {
        out.append("7");
    } else if d == 8 {
        out.append("8");
    } else {
        out.append("9");
    }
}

/// Appends a number in decimal.
pub(crate) fn push_decimal(out: &mut String, n: u64)
    ensures
        final(out)@ == old(out)@ + decimal(n as nat),
    decreases n,
{
    if n < 10 {
        push_digit(out, n);
    } else {
        let ghost before = out@;
        push_decimal(out, n / 10);
        push_digit(out, n % 10);
        assert(out@ =~= before + (decimal((n / 10) as nat) + digit_text((n % 10) as nat)));
    }
}

/// Appends a hash as a list of bytes.
pub(crate) fn push_hash(out: &mut String, hash: &Hash32)
    ensures
        final(out)@ == old(out)@ + hash_text(*hash),
{
    let ghost before = out@;
    out.append("[");
    let mut i: usize = 0;
    assert(hash@.take(0).len() == 0);
    assert(out@ =~= before + "["@ + list_text(hash@.take(0)));
    while i < 32
        invariant
            i <= 32,
            out@ == before + "["@ + list_text(hash@.take(i as int)),
        decreases 32 - i,
    {
        let ghost at = out@;
        assert(hash@.take(i + 1).drop_last() =~= hash@.take(i as int));
        if i > 0 {
            out.append(", ");
        }
        push_decimal(out, hash[i] as u64);
        i = i + 1;
        assert(out@ =~= before + "["@ + list_text(hash@.take(i as int)));
    }
    out.append("]");
    assert(hash@.take(32) =~= hash@);
    assert(out@ =~= before + hash_text(*hash));
}

/// Two texts, one after the other.
pub(crate) fn join(head: &str, tail: &str) -> (text: String)
    ensures
        text@ == head@ + tail@,
{
    let mut text: String = String::new();
    text.append(head);
    text.append(tail);
    assert(text@ =~= head@ + tail@);
    text
}

/// A text with a hash behind it.
pub(crate) fn with_hash(head: &str, hash: &Hash32) -> (text: String)
    ensures
        text@ == head@ + hash_text(*hash),
{
    let mut text: String = head.to_owned();
    push_hash(&mut text, hash);
    text
}

/// The number that decimal digits stand for.
pub open spec fn read_decimal(text: Seq<char>) -> int
    decreases text.len(),
{
    if text.len() == 0 {
        0
    } else {
        read_decimal(text.drop_last()) * 10 + (text.last() as int - '0' as int)
    }
}

proof fn lemma_digit(d: nat)
    requires
        d < 10,
    ensures
        digit_text(d).len() == 1,
        digit_text(d)[0] as int == '0' as int + d,
{
    reveal_strlit("0");
    reveal_strlit("1");
    reveal_strlit("2");
    reveal_strlit("3");
    reveal_strlit("4");
    reveal_strlit("5");
    reveal_strlit("6");
    reveal_strlit("7");
    reveal_strlit("8");
    reveal_strlit("9");
}

/// A number in decimal is made of digits, reads back as the number, and has no zero in front, except
/// that zero is one.
pub proof fn law_decimal_reads_back(n: nat)
    ensures
        read_decimal(decimal(n)) == n,
        decimal(n).len() > 0,
        forall|i: int| 0 <= i < decimal(n).len() ==> '0' <= #[trigger] decimal(n)[i] <= '9',
        decimal(n)[0] == '0' ==> decimal(n).len() == 1,
    decreases n,
{
    if n < 10 {
        lemma_digit(n);
        assert(decimal(n).drop_last().len() == 0);
        assert(read_decimal(decimal(n).drop_last()) == 0);
    } else {
        law_decimal_reads_back(n / 10);
        lemma_digit(n % 10);
        let init = decimal(n / 10);
        assert(decimal(n).drop_last() =~= init);
        assert(decimal(n)[0] == init[0]);
        assert forall|i: int| 0 <= i < decimal(n).len() implies '0' <= #[trigger] decimal(n)[i]
            <= '9' by {
            if i < init.len() {
                assert(decimal(n)[i] == init[i]);
            }
        }
        if init[0] == '0' {
            assert(init.drop_last().len() == 0);
            assert(read_decimal(init.drop_last()) == 0);
            assert(read_decimal(init) == 0);
        }
    }
}

/// A list of bytes shows each byte in decimal, with a comma and a space before every one but the
/// first; a hash shows its bytes in square brackets.
pub proof fn law_list_shows_every_byte(bytes: Seq<u8>, byte: u8, hash: Hash32)
    ensures
        list_text(Seq::empty()).len() == 0,
        bytes.len() == 0 ==> list_text(bytes.push(byte)) == decimal(byte as nat),
        bytes.len() > 0 ==> list_text(bytes.push(byte)) == list_text(bytes) + ", "@ + decimal(
            byte as nat,
        ),
        hash_text(hash) == "["@ + list_text(hash@) + "]"@,
{
    assert(bytes.push(byte).drop_last() =~= bytes);
}

} // verus!
