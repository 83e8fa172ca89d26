//! Derives the name of the data file that belongs to an `__info` file.
use vstd::prelude::*;

verus! {

/// The bytes of `__info`.
pub open spec fn info_suffix() -> Seq<u8> {
    seq![95u8, 95u8, 105u8, 110u8, 102u8, 111u8]
}

/// The bytes of `__data`.
pub open spec fn data_suffix() -> Seq<u8> {
    seq![95u8, 95u8, 100u8, 97u8, 116u8, 97u8]
}

pub open spec fn ends_with_info(name: Seq<u8>) -> bool {
    name.len() >= 6 && name.subrange(name.len() - 6, name.len() as int) == info_suffix()
}

/// The name with its trailing `__info` replaced by `__data`.
pub open spec fn data_name_of(name: Seq<u8>) -> Seq<u8> {
    name.subrange(0, name.len() - 6) + data_suffix()
}

/// For a file name that ends in `__info`, the name of its companion data
/// file, which ends in `__data` instead; `None` for any other name.
pub fn data_file_name(name: &[u8]) -> (r: Option<Vec<u8>>)
    ensures
        r is Some <==> ends_with_info(name@),
        r matches Some(d) ==> d@ == data_name_of(name@),
{
    let info: [u8; 6] = [95, 95, 105, 110, 102, 111];
    let data: [u8; 6] = [95, 95, 100, 97, 116, 97];
    let n = name.len();
    if n < 6 {
        return None;
    }
    let start = n - 6;
    let mut k: usize = 0;
    while k < 6
        invariant
            n == name@.len(),
            start == n - 6,
            k <= 6,
            info@ == info_suffix(),
            forall|m: int| 0 <= m < k ==> name@[start + m] == info_suffix()[m],
        decreases 6 - k,
    {
        if name[start + k] != info[k] {
            assert(name@.subrange(start as int, n as int)[k as int] != info_suffix()[k as int]);
            return None;
        }
        k = k + 1;
    }
    assert(name@.subrange(start as int, n as int) =~= info_suffix());
    let mut out: Vec<u8> = Vec::new();
    let mut i: usize = 0;
    while i < start
        invariant
            n == name@.len(),
            start == n - 6,
            i <= start,
            out@ == name@.subrange(0, i as int),
        decreases start - i,
    {
        out.push(name[i]);
        i = i + 1;
        assert(out@ =~= name@.subrange(0, i as int));
    }
    let mut j: usize = 0;
    while j < 6
        invariant
            n == name@.len(),
            start == n - 6,
            j <= 6,
            data@ == data_suffix(),
            out@ == name@.subrange(0, start as int) + data_suffix().subrange(0, j as int),
        decreases 6 - j,
    {
        out.push(data[j]);
        j = j + 1;
        assert(out@ =~= name@.subrange(0, start as int) + data_suffix().subrange(0, j as int));
    }
    assert(data_suffix().subrange(0, 6) =~= data_suffix());
    Some(out)
}

} // verus!
