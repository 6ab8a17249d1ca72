use vstd::prelude::*;
use crate::machine::frame_words;

verus! {

/// Size in bytes of the private stack for a call with `nargs` arguments on
/// code built for a frame of `stack_size` bytes: the frame, the argument
/// words and the return slot all fit; `None` where that size overflows.
pub fn private_stack_len(stack_size: usize, nargs: usize) -> (r: Option<usize>)
    ensures
        r matches Some(n) ==> n == 8 * frame_words(stack_size, nargs as nat),
        r is None <==> 8 * frame_words(stack_size, nargs as nat) > usize::MAX,
{
    let w0: usize = stack_size / 8;
    let w1: usize = if w0 < nargs { nargs } else { w0 };
    let words: usize = if w1 < 1 { 1 } else { w1 };
    words.checked_mul(8)
}

/// `t` with the eight bytes of `w` written from offset `h` on.
pub open spec fn write_word(t: Seq<u8>, h: int, w: Seq<u8>) -> Seq<u8> {
    Seq::new(t.len(), |i: int| if h <= i < h + 8 { w[i - h] } else { t[i] })
}

/// The template after its first `n` holes are patched, in order, each with
/// the next eight bytes of `bytes`.
pub open spec fn patched(t: Seq<u8>, holes: Seq<usize>, bytes: Seq<u8>, n: nat) -> Seq<u8>
    decreases n,
{
    if n == 0 {
        t
    } else {
        let k = n - 1;
        write_word(patched(t, holes, bytes, k as nat), holes[k] as int, bytes.subrange(8 * k, 8 * k + 8))
    }
}

/// Every hole leaves room for an eight-byte word inside the template.
pub open spec fn holes_fit(len: nat, holes: Seq<usize>) -> bool {
    forall|k: int| 0 <= k < holes.len() ==> #[trigger] holes[k] + 8 <= len
}

/// Why a stencil cannot be patched.
#[derive(Clone, Copy, Debug, PartialEq, Eq, Structural)]
pub enum PatchError {
    /// This many value bytes were given where the holes need eight each.
    ValueCount(usize),
    /// The hole at this position reaches past the end of the template.
    HoleOutOfRange(usize),
}

/// Fills the holes of a stencil: hole `k` receives bytes `8k .. 8k + 8` of
/// `bytes` (an address or a value in the machine's byte order).
pub fn patch_holes(template: &Vec<u8>, holes: &Vec<usize>, bytes: &Vec<u8>) -> (r: Result<
    Vec<u8>,
    PatchError,
>)
    ensures
        bytes@.len() != 8 * holes@.len() <==> r == Err::<Vec<u8>, PatchError>(
            PatchError::ValueCount(bytes.len()),
        ),
        bytes@.len() == 8 * holes@.len() && !holes_fit(template@.len(), holes@) ==> (r matches Err(
            PatchError::HoleOutOfRange(k),
        ) && k < holes@.len() && holes@[k as int] + 8 > template@.len()),
        r matches Ok(code) ==> holes_fit(template@.len(), holes@) && code@ == patched(
            template@,
            holes@,
            bytes@,
            holes@.len(),
        ),
        bytes@.len() == 8 * holes@.len() && holes_fit(template@.len(), holes@) ==> r is Ok,
{
    if holes.len() > bytes.len() / 8 || bytes.len() != 8 * holes.len() {
        return Err(PatchError::ValueCount(bytes.len()));
    }
    let tl: usize = template.len();
    let bl: usize = bytes.len();
    let mut k: usize = 0;
    while k < holes.len()
        invariant
            k <= holes@.len(),
            bytes@.len() == 8 * holes@.len(),
            forall|j: int| 0 <= j < k ==> #[trigger] holes@[j] + 8 <= template@.len(),
        decreases holes@.len() - k,
    {
        if holes[k] > template.len() || template.len() - holes[k] < 8 {
            return Err(PatchError::HoleOutOfRange(k));
        }
        k = k + 1;
    }
    let mut code: Vec<u8> = Vec::new();
    let mut i: usize = 0;
    while i < template.len()
        invariant
            i <= template@.len(),
            code@ =~= template@.subrange(0, i as int),
        decreases template@.len() - i,
    {
        code.push(template[i]);
        i = i + 1;
    }
    assert(code@ =~= patched(template@, holes@, bytes@, 0));
    let mut n: usize = 0;
    while n < holes.len()
        invariant
            n <= holes@.len(),
            bytes@.len() == 8 * holes@.len(),
            holes_fit(template@.len(), holes@),
            code@ == patched(template@, holes@, bytes@, n as nat),
            code@.len() == template@.len(),
            tl == template@.len(),
            bl == bytes@.len(),
        decreases holes@.len() - n,
    {
        let h = holes[n];
        assert(h + 8 <= template@.len());
        let ghost before = code@;
        let mut b: usize = 0;
        while b < 8
            invariant
                b <= 8,
                n < holes@.len(),
                h == holes@[n as int],
                h + 8 <= code@.len(),
                code@.len() == tl,
                bytes@.len() == bl,
                bytes@.len() == 8 * holes@.len(),
                before.len() == code@.len(),
                forall|i: int| 0 <= i < code@.len() ==> #[trigger] code@[i] == (if h <= i < h + b {
                    bytes@[8 * n + i - h]
                } else {
                    before[i]
                }),
            decreases 8 - b,
        {
            assert(8 * n + b < 8 * holes@.len()) by (nonlinear_arith)
                requires n < holes@.len(), b < 8;
            code.set(h + b, bytes[8 * n + b]);
            b = b + 1;
        }
        assert(code@ =~= write_word(before, h as int, bytes@.subrange(8 * n, 8 * n + 8)));
        n = n + 1;
    }
    Ok(code)
}

} // verus!
