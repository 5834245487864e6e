//! Text helpers measured in UTF-8 bytes, the unit in which terminal columns are counted here.
use vstd::prelude::*;
use vstd::utf8::encode_utf8;

verus! {

/// Number of bytes in the UTF-8 encoding of `s`.
pub open spec fn byte_len(s: Seq<char>) -> nat {
    encode_utf8(s).len()
}

/// `n` space characters.
pub open spec fn spaces(n: nat) -> Seq<char> {
    Seq::new(n, |i: int| ' ')
}

/// `s` followed by enough spaces to reach `width` bytes; `s` itself when it is already that wide.
pub open spec fn padded(s: Seq<char>, width: nat) -> Seq<char> {
    if byte_len(s) < width {
        s + spaces((width - byte_len(s)) as nat)
    } else {
        s
    }
}

/// Encoding a concatenation encodes each part in turn.
pub proof fn lemma_encode_concat(a: Seq<char>, b: Seq<char>)
    ensures
        encode_utf8(a + b) == encode_utf8(a) + encode_utf8(b),
    decreases a.len(),
{
    if a.len() == 0 {
        assert(a + b =~= b);
        assert(encode_utf8(a) + encode_utf8(b) =~= encode_utf8(b));
    } else {
        lemma_encode_concat(a.drop_first(), b);
        assert((a + b).drop_first() =~= a.drop_first() + b);
        assert((a + b)[0] == a[0]);
        assert(encode_utf8(a + b) =~= encode_utf8(a) + encode_utf8(b));
    }
}

/// An ASCII character takes one byte.
pub proof fn lemma_byte_len_push_ascii(s: Seq<char>, c: char)
    requires
        (c as u32) < 128,
    ensures
        byte_len(s.push(c)) == byte_len(s) + 1,
{
    let one = seq![c];
    lemma_encode_concat(s, one);
    assert(s.push(c) =~= s + one);
    assert(one.drop_first() =~= Seq::<char>::empty());
    assert(encode_utf8(one.drop_first()) =~= Seq::<u8>::empty());
    assert(encode_utf8(one) == vstd::utf8::encode_scalar(c as u32) + encode_utf8(one.drop_first()));
}

/// Length of `s` in bytes.
pub fn str_byte_len(s: &str) -> (n: usize)
    ensures
        n == byte_len(s@),
{
    s.as_bytes().len()
}

/// Pad a string with spaces on the right side up to `width` bytes.
pub fn right_pad(s: &str, width: usize) -> (r: String)
    ensures
        r@ == padded(s@, width as nat),
{
    let mut res = s.to_owned();
    let mut len = str_byte_len(s);
    let ghost n0 = byte_len(s@);
    let ghost mut k: nat = 0;
    while len < width
        invariant
            res@ == s@ + spaces(k),
            byte_len(res@) == n0 + k,
            n0 < width ==> n0 + k <= width,
            n0 >= width ==> k == 0,
            len == n0 + k,
        decreases width - len,
    {
        let ghost before = res@;
        proof {
            reveal_strlit(" ");
            lemma_byte_len_push_ascii(before, ' ');
        }
        res.append(" ");
        len = len + 1;
        proof {
            assert(res@ =~= before.push(' '));
            k = k + 1;
            assert(res@ =~= s@ + spaces(k));
        }
    }
    proof {
        if n0 < width {
            assert(spaces(k) =~= spaces((width - n0) as nat));
        } else {
            assert(res@ =~= s@);
        }
    }
    res
}

} // verus!
