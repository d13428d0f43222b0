use vstd::prelude::*;

verus! {

/// The token id held by four bytes, most significant byte first.
pub open spec fn token_at(bytes: Seq<u8>, i: int) -> int {
    bytes[4 * i] * 16777216 + bytes[4 * i + 1] * 65536 + bytes[4 * i + 2] * 256 + bytes[4 * i + 3]
}

/// Decodes a byte stream into token ids, four bytes per id, most significant
/// byte first. Trailing bytes that do not fill a group of four are ignored.
pub fn convert_to_usize(input: Vec<u8>) -> (r: Vec<usize>)
    ensures
        r@.len() == input@.len() / 4,
        forall|i: int| 0 <= i < r@.len() ==> #[trigger] r@[i] == token_at(input@, i),
{
    let len: usize = input.len();
    let n: usize = len / 4;
    let mut out: Vec<usize> = Vec::new();
    let mut i: usize = 0;
    while i < n
        invariant
            len == input@.len(),
            n == len / 4,
            i <= n,
            out@.len() == i,
            forall|k: int| 0 <= k < i ==> #[trigger] out@[k] == token_at(input@, k),
        decreases n - i,
    {
        assert(4 * i + 3 < len) by (nonlinear_arith)
            requires
                i < n,
                n == len / 4,
        ;
        let b0 = input[4 * i] as u32;
        let b1 = input[4 * i + 1] as u32;
        let b2 = input[4 * i + 2] as u32;
        let b3 = input[4 * i + 3] as u32;
        let id: u32 = b0 * 16777216 + b1 * 65536 + b2 * 256 + b3;
        out.push(id as usize);
        i = i + 1;
    }
    out
}

/// The largest id in `data`.
pub open spec fn is_max(data: Seq<usize>, m: usize) -> bool {
    &&& exists|i: int| 0 <= i < data.len() && data[i] == m
    &&& forall|i: int| 0 <= i < data.len() ==> #[trigger] data[i] <= m
}

/// Number of rows a one-hot encoding of `data` needs: one more than the
/// largest id. `None` for an empty stream, or where the largest id is
/// `usize::MAX` and the count does not fit.
pub fn vocabulary_size(data: &Vec<usize>) -> (r: Option<usize>)
    ensures
        r is None <==> data@.len() == 0 || exists|m: usize| is_max(data@, m) && m == usize::MAX,
        r matches Some(v) ==> v >= 1 && is_max(data@, (v - 1) as usize),
{
    if data.len() == 0 {
        return None;
    }
    let mut m: usize = data[0];
    let mut i: usize = 1;
    while i < data.len()
        invariant
            1 <= i <= data@.len(),
            exists|k: int| 0 <= k < i && data@[k] == m,
            forall|k: int| 0 <= k < i ==> #[trigger] data@[k] <= m,
        decreases data@.len() - i,
    {
        if data[i] > m {
            m = data[i];
        }
        i = i + 1;
    }
    assert(is_max(data@, m));
    if m == usize::MAX {
        None
    } else {
        proof {
            assert forall|m2: usize| is_max(data@, m2) implies m2 == m by {
                let k = choose|k: int| 0 <= k < data@.len() && data@[k] == m2;
                let k2 = choose|k2: int| 0 <= k2 < data@.len() && data@[k2] == m;
                assert(data@[k] <= m);
                assert(data@[k2] <= m2);
            }
        }
        Some(m + 1)
    }
}

} // verus!
