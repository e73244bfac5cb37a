//! This machine's own addresses, as the interface list shows them.

use vstd::prelude::*;
use vstd::string::*;
use vstd::utf8::{encode_utf8, is_char_boundary};

verus! {

/// A socket address printed as `address:port` with a one-digit port, as an
/// interface's address prints with port 0, loses its last two bytes: what is
/// left is the address.
pub open spec fn spec_strip_port(s: Seq<u8>) -> Seq<u8> {
    s.subrange(0, s.len() - 2)
}

/// The address part of an interface address printed with its port: the text
/// without its last two bytes (`:0`). The text must be at least two bytes
/// long, and its last two bytes must not split a character.
pub fn strip_port(printed: &str) -> (r: String)
    requires
        2 <= printed.spec_bytes().len() <= usize::MAX,
        is_char_boundary(printed.spec_bytes(), printed.spec_bytes().len() - 2),
    ensures
        encode_utf8(r@) == spec_strip_port(printed.spec_bytes()),
        printed.is_ascii() ==> r@ == printed@.subrange(0, printed@.len() - 2),
{
    broadcast use vstd::string::group_string_axioms;

    if printed.is_ascii() {
        let n = printed.unicode_len();
        let head = printed.substring_ascii(0, n - 2);
        proof {
            let hb = head.spec_bytes();
            let pb = printed.spec_bytes();
            assert(hb =~= spec_strip_port(pb));
        }
        head.to_owned()
    } else {
        let (head, _) = printed.split_at(printed.len() - 2);
        head.to_owned()
    }
}

/// An address printed with port 0 (`:0`, two ASCII bytes) strips back to
/// the address.
pub proof fn lemma_strip_port_of_port_zero(address: Seq<u8>)
    ensures
        spec_strip_port(address + seq![0x3au8, 0x30u8]) == address,
{
    assert(spec_strip_port(address + seq![0x3au8, 0x30u8]) =~= address);
}

/// This machine's own addresses, from its interface addresses as printed
/// with their port: each loses its port suffix, in order.
pub fn local_addresses(printed: &Vec<String>) -> (r: Vec<String>)
    requires
        forall|i: int|
            0 <= i < printed@.len() ==> {
                let b = encode_utf8((#[trigger] printed@[i])@);
                &&& 2 <= b.len() <= usize::MAX
                &&& is_char_boundary(b, b.len() - 2)
            },
    ensures
        r@.len() == printed@.len(),
        forall|i: int|
            0 <= i < r@.len() ==> encode_utf8((#[trigger] r@[i])@) == spec_strip_port(
                encode_utf8(printed@[i]@),
            ),
{
    let mut r: Vec<String> = Vec::new();
    let mut i: usize = 0;
    while i < printed.len()
        invariant
            i <= printed@.len(),
            r@.len() == i,
            forall|k: int|
                0 <= k < printed@.len() ==> {
                    let b = encode_utf8((#[trigger] printed@[k])@);
                    &&& 2 <= b.len() <= usize::MAX
                    &&& is_char_boundary(b, b.len() - 2)
                },
            forall|k: int|
                0 <= k < i ==> encode_utf8((#[trigger] r@[k])@) == spec_strip_port(
                    encode_utf8(printed@[k]@),
                ),
        decreases printed@.len() - i,
    {
        let p = printed[i].as_str();
        assert(p.spec_bytes() == encode_utf8(printed@[i as int]@));
        r.push(strip_port(p));
        i = i + 1;
    }
    r
}

} // verus!
