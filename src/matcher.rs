//! Finds the first avatar identifier (`avtr_` followed by a hyphenated
//! 8-4-4-4-12 run of hexadecimal digits) in raw file content.
use vstd::prelude::*;

verus! {

/// Length in bytes of an identifier: `avtr_` plus 36 characters.
pub const ID_LEN: usize = 41;

pub open spec fn is_hex_byte(b: u8) -> bool {
    (48 <= b <= 57) || (65 <= b <= 70) || (97 <= b <= 102)
}

/// The bytes of `avtr_`.
pub open spec fn prefix_byte(k: int) -> u8 {
    if k == 0 {
        97u8
    } else if k == 1 {
        118u8
    } else if k == 2 {
        116u8
    } else if k == 3 {
        114u8
    } else {
        95u8
    }
}

pub open spec fn is_dash_position(k: int) -> bool {
    k == 13 || k == 18 || k == 23 || k == 28
}

/// Whether byte `b` may stand at position `k` of an identifier.
pub open spec fn fits_at(k: int, b: u8) -> bool {
    if k < 5 {
        b == prefix_byte(k)
    } else if is_dash_position(k) {
        b == 45u8
    } else {
        is_hex_byte(b)
    }
}

/// An identifier starts at index `i` of `c`.
pub open spec fn id_at(c: Seq<u8>, i: int) -> bool {
    &&& 0 <= i
    &&& i + ID_LEN <= c.len()
    &&& forall|k: int| 0 <= k < ID_LEN ==> fits_at(k, #[trigger] c[i + k])
}

/// `i` is the leftmost index at which an identifier starts.
pub open spec fn is_first_id_at(c: Seq<u8>, i: int) -> bool {
    &&& id_at(c, i)
    &&& forall|j: int| 0 <= j < i ==> !id_at(c, j)
}

pub open spec fn has_id(c: Seq<u8>) -> bool {
    exists|i: int| id_at(c, i)
}

pub open spec fn is_ascii_bytes(b: Seq<u8>) -> bool {
    forall|i: int| 0 <= i < b.len() ==> #[trigger] b[i] < 128
}

/// The text of ASCII bytes, one character per byte.
pub open spec fn ascii_text(b: Seq<u8>) -> Seq<char> {
    b.map_values(|x: u8| x as char)
}

/// The text of the identifier that starts at index `i` of `c`.
pub open spec fn id_text(c: Seq<u8>, i: int) -> Seq<char> {
    ascii_text(c.subrange(i, i + ID_LEN))
}

/// Relies on String::from_utf8_lossy: ASCII bytes are valid UTF-8 and are
/// decoded one character per byte.
#[verifier::external_body]
fn decode_lossy(b: &[u8]) -> (r: String)
    ensures
        is_ascii_bytes(b@) ==> r@ == ascii_text(b@),
{
    String::from_utf8_lossy(b).into_owned()
}

fn is_hex_digit(b: u8) -> (r: bool)
    ensures
        r == is_hex_byte(b),
{
    (48 <= b && b <= 57) || (65 <= b && b <= 70) || (97 <= b && b <= 102)
}

fn fits(k: usize, b: u8) -> (r: bool)
    requires
        k < ID_LEN,
    ensures
        r == fits_at(k as int, b),
{
    if k < 5 {
        let p: u8 = if k == 0 {
            97
        } else if k == 1 {
            118
        } else if k == 2 {
            116
        } else if k == 3 {
            114
        } else {
            95
        };
        b == p
    } else if k == 13 || k == 18 || k == 23 || k == 28 {
        b == 45
    } else {
        is_hex_digit(b)
    }
}

/// Whether an identifier starts at index `i` of `content`.
fn id_starts_at(content: &[u8], i: usize) -> (r: bool)
    requires
        i + ID_LEN <= content@.len(),
    ensures
        r == id_at(content@, i as int),
{
    let n = content.len();
    let mut k: usize = 0;
    while k < ID_LEN
        invariant
            k <= ID_LEN,
            n == content@.len(),
            i + ID_LEN <= n,
            forall|m: int| 0 <= m < k ==> fits_at(m, #[trigger] content@[i + m]),
        decreases ID_LEN - k,
    {
        if !fits(k, content[i + k]) {
            return false;
        }
        k = k + 1;
    }
    true
}

/// Returns the first identifier in `content`, or `None` where it holds none.
/// Hexadecimal digits match in either case. Bytes that are not valid text
/// never belong to an identifier, so any content is accepted.
pub fn find_avatar_id(content: &[u8]) -> (r: Option<String>)
    ensures
        r is None <==> !has_id(content@),
        r matches Some(id) ==> exists|i: int|
            is_first_id_at(content@, i) && id@ == #[trigger] id_text(content@, i),
{
    let n = content.len();
    if n < ID_LEN {
        return None;
    }
    let mut i: usize = 0;
    while i <= n - ID_LEN
        invariant
            n == content@.len(),
            ID_LEN <= n,
            i <= n - ID_LEN + 1,
            forall|j: int| 0 <= j < i ==> !id_at(content@, j),
        decreases n - ID_LEN + 1 - i,
    {
        if id_starts_at(content, i) {
            let mut bytes: Vec<u8> = Vec::new();
            let mut k: usize = 0;
            while k < ID_LEN
                invariant
                    k <= ID_LEN,
                    i + ID_LEN <= n,
                    n == content@.len(),
                    bytes@ == content@.subrange(i as int, i + k),
                decreases ID_LEN - k,
            {
                bytes.push(content[i + k]);
                k = k + 1;
                proof {
                    assert(bytes@ =~= content@.subrange(i as int, i + k));
                }
            }
            proof {
                assert forall|m: int| 0 <= m < bytes@.len() implies #[trigger] bytes@[m] < 128 by {
                    assert(fits_at(m, content@[i + m]));
                }
            }
            let id = decode_lossy(bytes.as_slice());
            assert(is_first_id_at(content@, i as int));
            assert(id@ == id_text(content@, i as int));
            return Some(id);
        }
        i = i + 1;
    }
    proof {
        assert forall|j: int| !id_at(content@, j) by {
            if 0 <= j && j < i {
            }
        }
    }
    None
}

/// Content made of noise, one identifier and more noise, where the noise
/// before the identifier starts none of its own, yields that identifier.
pub proof fn lemma_embedded_identifier(pre: Seq<u8>, id: Seq<u8>, post: Seq<u8>)
    requires
        id.len() == ID_LEN,
        id_at(id, 0),
        forall|j: int| 0 <= j < pre.len() ==> !id_at(pre + id + post, j),
    ensures
        is_first_id_at(pre + id + post, pre.len() as int),
        id_text(pre + id + post, pre.len() as int) == ascii_text(id),
        forall|i: int| is_first_id_at(pre + id + post, i) ==> i == pre.len(),
{
    let c = pre + id + post;
    assert forall|k: int| 0 <= k < ID_LEN implies fits_at(k, #[trigger] c[pre.len() + k]) by {
        assert(c[pre.len() + k] == id[k]);
        assert(fits_at(k, id[0 + k]));
    }
    assert(c.subrange(pre.len() as int, pre.len() + ID_LEN) =~= id);
    assert forall|i: int| is_first_id_at(c, i) implies i == pre.len() by {
        if i > pre.len() {
            assert(id_at(c, pre.len() as int));
        } else if i < pre.len() {
            assert(!id_at(c, i));
        }
    }
}

} // verus!
