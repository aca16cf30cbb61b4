//! Global-state addresses of agents and organizations.

use vstd::prelude::*;
use vstd::string::StringSliceAdditionalSpecFns;

verus! {

/// Represents part of address that designates resource type
#[derive(Debug, Clone, Copy, PartialEq, Eq, Structural)]
pub enum Resource {
    AGENT,
    ORG,
}

/// The two hex characters that stand for a resource type in an address.
pub open spec fn resource_code(part: Resource) -> Seq<char> {
    match part {
        Resource::AGENT => seq!['0', '0'],
        Resource::ORG => seq!['0', '1'],
    }
}

/// Convert resource part to byte value in hex
pub fn resource_to_byte(part: Resource) -> (code: String)
    ensures
        code@ == resource_code(part),
        part == Resource::AGENT ==> code@ == "00"@,
        part == Resource::ORG ==> code@ == "01"@,
{
    match part {
        Resource::AGENT => {
            let s = "00";
            proof {
                reveal_strlit("00");
                assert("00"@ =~= seq!['0', '0']);
            }
            String::from_str(s)
        },
        Resource::ORG => {
            let s = "01";
            proof {
                reveal_strlit("01");
                assert("01"@ =~= seq!['0', '1']);
            }
            String::from_str(s)
        },
    }
}

/// The resource type that a two-character code designates, if any.
pub open spec fn resource_of_code(code: Seq<char>) -> Option<Resource> {
    if code == resource_code(Resource::AGENT) {
        Some(Resource::AGENT)
    } else if code == resource_code(Resource::ORG) {
        Some(Resource::ORG)
    } else {
        None
    }
}

/// Text of the error for a code that designates no resource type.
pub open spec fn unknown_resource_message(bytes: Seq<char>) -> Seq<char> {
    "No resource found matching byte pattern "@ + bytes
}

#[derive(Debug)]
pub enum ResourceError {
    UnknownResource(String),
}

/// Whether `s` is exactly the two characters `first`, `second`.
fn is_two_chars(s: &str, first: char, second: char) -> (res: bool)
    ensures
        res == (s@ == seq![first, second]),
{
    let len = s.unicode_len();
    if len != 2 {
        return false;
    }
    let a = s.get_char(0);
    let b = s.get_char(1);
    if a == first && b == second {
        assert(s@ =~= seq![first, second]);
        true
    } else {
        false
    }
}

/// Convert byte string to Resource
pub fn byte_to_resource(bytes: &str) -> (res: Result<Resource, ResourceError>)
    ensures
        bytes@ == "00"@ ==> res == Ok::<Resource, ResourceError>(Resource::AGENT),
        bytes@ == "01"@ ==> res == Ok::<Resource, ResourceError>(Resource::ORG),
        res is Ok <==> (bytes@ == "00"@ || bytes@ == "01"@),
        match resource_of_code(bytes@) {
            Some(r) => res == Ok::<Resource, ResourceError>(r),
            None => res matches Err(ResourceError::UnknownResource(msg))
                && msg@ == unknown_resource_message(bytes@),
        },
{
    proof {
        reveal_strlit("00");
        reveal_strlit("01");
        assert("00"@ =~= seq!['0', '0']);
        assert("01"@ =~= seq!['0', '1']);
    }
    if is_two_chars(bytes, '0', '0') {
        Ok(Resource::AGENT)
    } else if is_two_chars(bytes, '0', '1') {
        Ok(Resource::ORG)
    } else {
        let prefix = "No resource found matching byte pattern ";
        let mut msg = String::from_str(prefix);
        msg.append(bytes);
        Err(ResourceError::UnknownResource(msg))
    }
}

/// Lower-case hex digit of a value below 16.
pub open spec fn hex_digit(nibble: u8) -> char {
    if nibble < 10 {
        (nibble + 48) as char
    } else {
        (nibble + 87) as char
    }
}

/// The two lower-case hex digits of one byte, high nibble first.
pub open spec fn hex_of_byte(b: u8) -> Seq<char> {
    seq![hex_digit(b / 16), hex_digit(b % 16)]
}

/// Lower-case hex encoding of a byte sequence, two digits per byte.
pub open spec fn hex_of_bytes(bytes: Seq<u8>) -> Seq<char>
    decreases bytes.len(),
{
    if bytes.len() == 0 {
        seq![]
    } else {
        hex_of_bytes(bytes.drop_last()) + hex_of_byte(bytes.last())
    }
}

fn nibble_to_hex(nibble: u8) -> (c: char)
    requires
        nibble < 16,
    ensures
        c == hex_digit(nibble),
{
    if nibble < 10 {
        (nibble + 48) as char
    } else {
        (nibble + 87) as char
    }
}

/// Returns a hex string representation of the supplied bytes
///
/// # Arguments
///
/// * `b` - input bytes
pub fn bytes_to_hex_str(b: &[u8]) -> (hex: String)
    ensures
        hex@ == hex_of_bytes(b@),
        hex@.len() == 2 * b@.len(),
        forall|i: int|
            0 <= i < b@.len() ==> hex@[2 * i] == "0123456789abcdef"@[(#[trigger] b@[i] / 16) as int]
                && hex@[2 * i + 1] == "0123456789abcdef"@[(b@[i] % 16) as int],
{
    let mut hex = String::new();
    let mut i: usize = 0;
    while i < b.len()
        invariant
            i <= b.len(),
            hex@ == hex_of_bytes(b@.take(i as int)),
        decreases b.len() - i,
    {
        let byte = b[i];
        crate::text::push_char(&mut hex, nibble_to_hex(byte / 16));
        crate::text::push_char(&mut hex, nibble_to_hex(byte % 16));
        assert(b@.take(i + 1).drop_last() =~= b@.take(i as int));
        i = i + 1;
    }
    assert(b@.take(b.len() as int) =~= b@);
    proof {
        lemma_hex_len(b@);
        lemma_hex_at(b@);
        lemma_hex_digit_table();
    }
    hex
}

/// The namespace prefix of every dgc address in global state (`cad11d`).
pub open spec fn namespace_prefix() -> Seq<char> {
    seq!['c', 'a', 'd', '1', '1', 'd']
}

/// The address built from a name's digest: namespace, resource code, then the
/// first 62 hex digits of the digest.
pub open spec fn address_of_digest(digest: Seq<u8>, part: Resource) -> Seq<char> {
    namespace_prefix() + resource_code(part) + hex_of_bytes(digest).take(62)
}

/// The state address of the item whose name has the UTF-8 bytes `name_bytes`
/// and whose type is `part`.
pub open spec fn state_address(name_bytes: Seq<u8>, part: Resource) -> Seq<char> {
    address_of_digest(crate::digest::sha512_digest(name_bytes), part)
}

/// What every address of type `part` looks like: 70 characters, the namespace
/// `cad11d`, the code of `part`, then lower-case hex digits.
pub open spec fn is_address_of(address: Seq<char>, part: Resource) -> bool {
    &&& address.len() == 70
    &&& address.subrange(0, 6) == namespace_prefix()
    &&& address.subrange(6, 8) == resource_code(part)
    &&& forall|i: int| 8 <= i < 70 ==> is_lower_hex_digit(#[trigger] address[i])
}

const NAMESPACE: &'static str = "cad11d";

/// Returns the state address of `name` for the resource type `resource`.
pub fn compute_address(name: &str, resource: Resource) -> (address: String)
    ensures
        address@ == state_address(name.spec_bytes(), resource),
        is_address_of(address@, resource),
        address@.len() == 70,
        address@.subrange(0, 6) == "cad11d"@,
        address@.subrange(6, 8) == resource_code(resource),
        forall|j: int|
            #![trigger crate::digest::sha512_digest(name.spec_bytes())[j]]
            0 <= j < 31 ==> address@[8 + 2 * j] == hex_digit(
                crate::digest::sha512_digest(name.spec_bytes())[j] / 16,
            ) && address@[9 + 2 * j] == hex_digit(
                crate::digest::sha512_digest(name.spec_bytes())[j] % 16,
            ),
{
    let hex = crate::digest::sha512_result_str(name.as_bytes());
    proof {
        reveal_strlit("cad11d");
    }
    proof {
        lemma_hex_len(crate::digest::sha512_digest(name.spec_bytes()));
        lemma_address_layout(crate::digest::sha512_digest(name.spec_bytes()), resource);
        lemma_address_spells_digest(crate::digest::sha512_digest(name.spec_bytes()), resource);
        reveal_strlit("cad11d");
    }
    let address = String::from_str(NAMESPACE).concat(resource_to_byte(resource).as_str()).concat(
        hex.as_str().substring_char(0, 62),
    );
    address
}

/// The dgc namespace prefix for global state (cad11d)
const DGC_NAMESPACE: &'static str = "cad11d";

/// State address of a name under `part`, by hashing into a 64-byte buffer and
/// hex-encoding it here.
fn compute_hashed_address(name: &str, part: Resource) -> (address: String)
    ensures
        address@ == state_address(name.spec_bytes(), part),
        is_address_of(address@, part),
        address@.len() == 70,
        address@.subrange(0, 6) == "cad11d"@,
        address@.subrange(6, 8) == resource_code(part),
        forall|j: int|
            #![trigger crate::digest::sha512_digest(name.spec_bytes())[j]]
            0 <= j < 31 ==> address@[8 + 2 * j] == hex_digit(
                crate::digest::sha512_digest(name.spec_bytes())[j] / 16,
            ) && address@[9 + 2 * j] == hex_digit(
                crate::digest::sha512_digest(name.spec_bytes())[j] % 16,
            ),
{
    let hash = crate::digest::sha512_result(name.as_bytes());
    let hex = bytes_to_hex_str(hash.as_slice());
    proof {
        reveal_strlit("cad11d");
        lemma_hex_len(hash@);
        lemma_address_layout(hash@, part);
        lemma_address_spells_digest(hash@, part);
    }
    String::from_str(DGC_NAMESPACE).concat(resource_to_byte(part).as_str()).concat(
        hex.as_str().substring_char(0, 62),
    )
}

/// Returns a state address for a given agent name
///
/// # Arguments
///
/// * `name` - the agent's name
pub fn compute_agent_address(name: &str) -> (address: String)
    ensures
        address@ == state_address(name.spec_bytes(), Resource::AGENT),
        is_address_of(address@, Resource::AGENT),
        address@.len() == 70,
        address@.subrange(0, 6) == "cad11d"@,
        address@.subrange(6, 8) == resource_code(Resource::AGENT),
        forall|j: int|
            #![trigger crate::digest::sha512_digest(name.spec_bytes())[j]]
            0 <= j < 31 ==> address@[8 + 2 * j] == hex_digit(
                crate::digest::sha512_digest(name.spec_bytes())[j] / 16,
            ) && address@[9 + 2 * j] == hex_digit(
                crate::digest::sha512_digest(name.spec_bytes())[j] % 16,
            ),
{
    compute_hashed_address(name, Resource::AGENT)
}

/// Returns a state address for a given organization id
///
/// # Arguments
///
/// * `id` - the organization's id
pub fn compute_org_address(id: &str) -> (address: String)
    ensures
        address@ == state_address(id.spec_bytes(), Resource::ORG),
        is_address_of(address@, Resource::ORG),
        address@.len() == 70,
        address@.subrange(0, 6) == "cad11d"@,
        address@.subrange(6, 8) == resource_code(Resource::ORG),
        forall|j: int|
            #![trigger crate::digest::sha512_digest(id.spec_bytes())[j]]
            0 <= j < 31 ==> address@[8 + 2 * j] == hex_digit(
                crate::digest::sha512_digest(id.spec_bytes())[j] / 16,
            ) && address@[9 + 2 * j] == hex_digit(
                crate::digest::sha512_digest(id.spec_bytes())[j] % 16,
            ),
{
    compute_hashed_address(id, Resource::ORG)
}

/// Hex encoding takes two characters per byte.
pub proof fn lemma_hex_len(bytes: Seq<u8>)
    ensures
        hex_of_bytes(bytes).len() == 2 * bytes.len(),
    decreases bytes.len(),
{
    if bytes.len() > 0 {
        lemma_hex_len(bytes.drop_last());
    }
}

/// Whether `c` is one of `0`-`9`, `a`-`f`.
pub open spec fn is_lower_hex_digit(c: char) -> bool {
    ('0' <= c <= '9') || ('a' <= c <= 'f')
}

/// Every character of a hex encoding is a lower-case hex digit.
pub proof fn lemma_hex_digits(bytes: Seq<u8>)
    ensures
        forall|i: int|
            0 <= i < hex_of_bytes(bytes).len() ==> is_lower_hex_digit(
                #[trigger] hex_of_bytes(bytes)[i],
            ),
    decreases bytes.len(),
{
    if bytes.len() > 0 {
        lemma_hex_digits(bytes.drop_last());
        let prev = hex_of_bytes(bytes.drop_last());
        let last = hex_of_byte(bytes.last());
        assert(hex_of_bytes(bytes) == prev + last);
        assert forall|i: int| 0 <= i < hex_of_bytes(bytes).len() implies is_lower_hex_digit(
            #[trigger] hex_of_bytes(bytes)[i],
        ) by {
            if i >= prev.len() {
                assert(hex_of_bytes(bytes)[i] == last[i - prev.len()]);
            } else {
                assert(hex_of_bytes(bytes)[i] == prev[i]);
            }
        }
    }
}

/// The resource code of a type reads back as that type, and a code reads
/// back as a type only if it is that type's code.
pub proof fn lemma_resource_code_roundtrip(part: Resource, code: Seq<char>)
    ensures
        resource_of_code(resource_code(part)) == Some(part),
        resource_of_code(code) == Some(part) ==> resource_code(part) == code,
{
    assert(resource_code(Resource::AGENT) != resource_code(Resource::ORG)) by {
        assert(resource_code(Resource::AGENT)[1] != resource_code(Resource::ORG)[1]);
    }
}

/// The address built from a 64-byte digest has the layout of an address of
/// its type, and the type can be read back from characters 6 and 7.
pub proof fn lemma_address_layout(digest: Seq<u8>, part: Resource)
    requires
        digest.len() == 64,
    ensures
        is_address_of(address_of_digest(digest, part), part),
        resource_of_code(address_of_digest(digest, part).subrange(6, 8)) == Some(part),
{
    let hex = hex_of_bytes(digest);
    let address = address_of_digest(digest, part);
    lemma_hex_digits(digest);
    lemma_hex_len(digest);
    lemma_resource_code_roundtrip(part, resource_code(part));
    assert(address.subrange(0, 6) =~= namespace_prefix());
    assert(address.subrange(6, 8) =~= resource_code(part));
    assert forall|i: int| 8 <= i < 70 implies is_lower_hex_digit(#[trigger] address[i]) by {
        assert(address[i] == hex[i - 8]);
    }
}

/// Addresses of an agent and of an organization never coincide, whatever
/// their names.
pub proof fn lemma_resource_types_never_share_an_address(
    agent_name: Seq<u8>,
    org_id: Seq<u8>,
)
    ensures
        state_address(agent_name, Resource::AGENT) != state_address(org_id, Resource::ORG),
{
    let a = state_address(agent_name, Resource::AGENT);
    let o = state_address(org_id, Resource::ORG);
    assert(a[7] == '0');
    assert(o[7] == '1');
}

/// Different nibbles have different hex digits.
proof fn lemma_hex_digit_injective(x: u8, y: u8)
    requires
        x < 16,
        y < 16,
        hex_digit(x) == hex_digit(y),
    ensures
        x == y,
{
    assert(hex_digit(x) as int == if x < 10 { x + 48 } else { x + 87 });
    assert(hex_digit(y) as int == if y < 10 { y + 48 } else { y + 87 });
}

/// Hex encoding loses nothing: equal encodings come from equal bytes.
pub proof fn lemma_hex_injective(a: Seq<u8>, b: Seq<u8>)
    requires
        hex_of_bytes(a) == hex_of_bytes(b),
    ensures
        a == b,
    decreases a.len(),
{
    lemma_hex_len(a);
    lemma_hex_len(b);
    if a.len() > 0 {
        let ha = hex_of_bytes(a.drop_last());
        let hb = hex_of_bytes(b.drop_last());
        lemma_hex_len(a.drop_last());
        lemma_hex_len(b.drop_last());
        let n = ha.len() as int;
        assert(hex_of_bytes(a)[n] == hex_of_byte(a.last())[0]);
        assert(hex_of_bytes(b)[n] == hex_of_byte(b.last())[0]);
        assert(hex_of_bytes(a)[n + 1] == hex_of_byte(a.last())[1]);
        assert(hex_of_bytes(b)[n + 1] == hex_of_byte(b.last())[1]);
        lemma_hex_digit_injective(a.last() / 16, b.last() / 16);
        lemma_hex_digit_injective(a.last() % 16, b.last() % 16);
        assert(ha =~= hex_of_bytes(a).subrange(0, n));
        assert(hb =~= hex_of_bytes(b).subrange(0, n));
        lemma_hex_injective(a.drop_last(), b.drop_last());
        assert(a =~= a.drop_last().push(a.last()));
        assert(b =~= b.drop_last().push(b.last()));
    } else {
        assert(a =~= b);
    }
}

/// The hex digits are those of rustc-serialize's table `0123456789abcdef`.
pub proof fn lemma_hex_digit_table()
    ensures
        forall|n: u8| n < 16 ==> #[trigger] hex_digit(n) == "0123456789abcdef"@[n as int],
{
    reveal_strlit("0123456789abcdef");
    assert forall|n: u8| n < 16 implies #[trigger] hex_digit(n) == "0123456789abcdef"@[n as int] by {
        let t = "0123456789abcdef"@;
        if n == 0 { assert(t[0] == '0'); } else if n == 1 { assert(t[1] == '1'); }
        else if n == 2 { assert(t[2] == '2'); } else if n == 3 { assert(t[3] == '3'); }
        else if n == 4 { assert(t[4] == '4'); } else if n == 5 { assert(t[5] == '5'); }
        else if n == 6 { assert(t[6] == '6'); } else if n == 7 { assert(t[7] == '7'); }
        else if n == 8 { assert(t[8] == '8'); } else if n == 9 { assert(t[9] == '9'); }
        else if n == 10 { assert(t[10] == 'a'); } else if n == 11 { assert(t[11] == 'b'); }
        else if n == 12 { assert(t[12] == 'c'); } else if n == 13 { assert(t[13] == 'd'); }
        else if n == 14 { assert(t[14] == 'e'); } else { assert(t[15] == 'f'); }
    }
}

/// Byte `i` of the input is spelled by characters `2i` and `2i + 1` of its
/// hex encoding: the digit of its high nibble, then that of its low nibble.
pub proof fn lemma_hex_at(bytes: Seq<u8>)
    ensures
        forall|i: int|
            0 <= i < bytes.len() ==> hex_of_bytes(bytes)[2 * i] == hex_digit(
                #[trigger] bytes[i] / 16,
            ) && hex_of_bytes(bytes)[2 * i + 1] == hex_digit(bytes[i] % 16),
    decreases bytes.len(),
{
    if bytes.len() > 0 {
        let prev = bytes.drop_last();
        lemma_hex_at(prev);
        lemma_hex_len(prev);
        assert forall|i: int| 0 <= i < bytes.len() implies hex_of_bytes(bytes)[2 * i] == hex_digit(
            #[trigger] bytes[i] / 16,
        ) && hex_of_bytes(bytes)[2 * i + 1] == hex_digit(bytes[i] % 16) by {
            if i < prev.len() {
                assert(prev[i] == bytes[i]);
            }
        }
    }
}

/// Encoding a concatenation is concatenating the encodings.
pub proof fn lemma_hex_concat(a: Seq<u8>, b: Seq<u8>)
    ensures
        hex_of_bytes(a + b) == hex_of_bytes(a) + hex_of_bytes(b),
    decreases b.len(),
{
    if b.len() == 0 {
        assert(a + b =~= a);
        assert(hex_of_bytes(a) + hex_of_bytes(b) =~= hex_of_bytes(a));
    } else {
        lemma_hex_concat(a, b.drop_last());
        assert((a + b).drop_last() =~= a + b.drop_last());
        assert((a + b).last() == b.last());
        assert(hex_of_bytes(a + b) =~= hex_of_bytes(a) + hex_of_bytes(b));
    }
}

/// After the namespace and the resource code, an address spells the first 31
/// bytes of the digest, two hex digits per byte.
pub proof fn lemma_address_spells_digest(digest: Seq<u8>, part: Resource)
    requires
        digest.len() == 64,
    ensures
        forall|j: int|
            0 <= j < 31 ==> address_of_digest(digest, part)[8 + 2 * j] == hex_digit(
                #[trigger] digest[j] / 16,
            ) && address_of_digest(digest, part)[9 + 2 * j] == hex_digit(digest[j] % 16),
{
    lemma_hex_at(digest);
    lemma_hex_len(digest);
    let hex = hex_of_bytes(digest);
    let address = address_of_digest(digest, part);
    assert forall|j: int| 0 <= j < 31 implies address[8 + 2 * j] == hex_digit(
        #[trigger] digest[j] / 16,
    ) && address[9 + 2 * j] == hex_digit(digest[j] % 16) by {
        assert(address[8 + 2 * j] == hex[2 * j]);
        assert(address[9 + 2 * j] == hex[2 * j + 1]);
    }
}

/// The address of a name is decided by the digest of the whole name: two
/// names with the same digest share every address, and an address determines
/// the resource type and the first 31 bytes of the digest of the name.
pub proof fn lemma_address_follows_digest(a: Seq<u8>, b: Seq<u8>, part: Resource)
    ensures
        crate::digest::sha512_digest(a) == crate::digest::sha512_digest(b) ==> state_address(a, part)
            == state_address(b, part),
        state_address(a, part) == namespace_prefix() + resource_code(part) + hex_of_bytes(
            crate::digest::sha512_digest(a),
        ).take(62),
{
}

/// Two 64-byte digests give the same address only for the same resource type
/// and the same first 31 bytes.
pub proof fn lemma_address_determines_digest_prefix(
    d1: Seq<u8>,
    d2: Seq<u8>,
    p1: Resource,
    p2: Resource,
)
    requires
        d1.len() == 64,
        d2.len() == 64,
        address_of_digest(d1, p1) == address_of_digest(d2, p2),
    ensures
        p1 == p2,
        d1.take(31) == d2.take(31),
{
    let a = address_of_digest(d1, p1);
    lemma_address_layout(d1, p1);
    lemma_address_layout(d2, p2);
    lemma_resource_code_roundtrip(p1, resource_code(p2));
    lemma_address_spells_digest(d1, p1);
    lemma_address_spells_digest(d2, p2);
    assert forall|j: int| 0 <= j < 31 implies d1[j] == d2[j] by {
        assert(hex_digit(d1[j] / 16) == hex_digit(d2[j] / 16));
        assert(hex_digit(d1[j] % 16) == hex_digit(d2[j] % 16));
        lemma_hex_digit_injective(d1[j] / 16, d2[j] / 16);
        lemma_hex_digit_injective(d1[j] % 16, d2[j] % 16);
    }
    assert(d1.take(31) =~= d2.take(31));
}

} // verus!
