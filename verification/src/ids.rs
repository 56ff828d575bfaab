use vstd::prelude::*;
use vstd::string::*;
use crate::text::{
    chars_of, hex_char, hex_digit_char, hex_padded, hex_value, is_lower_hex_digit, lemma_hex_fixed_len,
    lemma_hex_fixed_ordered, lemma_hex_padded_fixed, lemma_hex_padded_lower, lex_less, pow16, push_chars, push_hex,
    starts_with, starts_with_chars, string_of, sub_chars,
};

verus! {

// ---------------------------------------------------------------------------
// Webview labels of user-defined entries
// ---------------------------------------------------------------------------

/// The label of the webview that shows the entry with this id.
pub open spec fn webview_label_of(id: Seq<char>) -> Seq<char> {
    "custom-"@ + id
}

/// `custom-<id>`: the webview label of a shortcut or user messenger.
pub fn custom_webview_label(id: &str) -> (r: String)
    ensures
        r@ == webview_label_of(id@),
{
    let mut r = String::from_str("custom-");
    r.append(id);
    r
}

/// Whether a webview label names a shortcut or user messenger.
pub fn is_custom_label(label: &str) -> (r: bool)
    ensures
        r == starts_with(label@, "custom-"@),
{
    let l = chars_of(label);
    let p = chars_of("custom-");
    starts_with_chars(&l, &p)
}

/// Every label made by `custom_webview_label` is recognised by `is_custom_label`.
pub proof fn lemma_custom_label_recognised(id: Seq<char>)
    ensures
        starts_with(webview_label_of(id), "custom-"@),
{
    assert(webview_label_of(id).subrange(0, "custom-"@.len() as int) =~= "custom-"@);
}

// ---------------------------------------------------------------------------
// Entry ids
// ---------------------------------------------------------------------------

/// An ASCII letter or digit.
pub open spec fn is_ascii_alphanumeric(c: char) -> bool {
    ||| '0' <= c <= '9'
    ||| 'a' <= c <= 'z'
    ||| 'A' <= c <= 'Z'
}

/// A character that an entry id may hold.
pub open spec fn is_id_char(c: char) -> bool {
    is_ascii_alphanumeric(c) || c == '-' || c == '_'
}

/// An id that survives being interpolated into a webview URL: non-empty, and
/// made of ASCII letters, digits, `-` and `_` only.
pub open spec fn is_valid_id(id: Seq<char>) -> bool {
    id.len() > 0 && forall|i: int| 0 <= i < id.len() ==> is_id_char(#[trigger] id[i])
}

pub fn id_char(c: char) -> (r: bool)
    ensures
        r == is_id_char(c),
{
    ('0' <= c && c <= '9') || ('a' <= c && c <= 'z') || ('A' <= c && c <= 'Z') || c == '-' || c == '_'
}

/// Accepts exactly the valid ids; anything else is answered with `Invalid id`.
pub fn validate_shortcut_id(id: &str) -> (r: Result<(), String>)
    ensures
        r is Ok <==> is_valid_id(id@),
        r matches Err(e) ==> e@ == "Invalid id"@,
{
    let v = chars_of(id);
    if v.len() == 0 {
        return Err(String::from_str("Invalid id"));
    }
    let mut i: usize = 0;
    while i < v.len()
        invariant
            i <= v.len(),
            v@ == id@,
            forall|k: int| 0 <= k < i ==> is_id_char(#[trigger] v@[k]),
        decreases v.len() - i,
    {
        if !id_char(v[i]) {
            return Err(String::from_str("Invalid id"));
        }
        i = i + 1;
    }
    Ok(())
}

/// The id given to an entry created `secs` seconds and `nanos` nanoseconds
/// after the Unix epoch: both as lower-case hex, each padded to eight digits.
pub open spec fn id_from_time(secs: nat, nanos: nat) -> Seq<char> {
    hex_padded(secs, 8) + hex_padded(nanos, 8)
}

/// `format!("{:08x}{:08x}", secs, nanos)`.
pub fn format_shortcut_id(secs: u64, nanos: u32) -> (r: String)
    ensures
        r@ == id_from_time(secs as nat, nanos as nat),
{
    let mut v: Vec<char> = Vec::new();
    push_hex(&mut v, secs, 8);
    push_hex(&mut v, nanos as u64, 8);
    string_of(&v)
}

/// Ids made from a time are valid ids, at least sixteen characters long.
pub proof fn lemma_time_id_valid(secs: nat, nanos: nat)
    ensures
        is_valid_id(id_from_time(secs, nanos)),
        id_from_time(secs, nanos).len() >= 16,
{
    lemma_hex_padded_lower(secs, 8);
    lemma_hex_padded_lower(nanos, 8);
    let a = hex_padded(secs, 8);
    let b = hex_padded(nanos, 8);
    assert forall|i: int| 0 <= i < (a + b).len() implies is_id_char(#[trigger] (a + b)[i]) by {
        if i < a.len() {
            assert(is_lower_hex_digit(a[i]));
        } else {
            assert(is_lower_hex_digit(b[i - a.len()]));
        }
    }
}

/// Ids sort by creation time: of two times before 2^32 seconds after the
/// epoch (nanoseconds below a billion), the earlier gives the id that is
/// smaller in string order, and both ids are sixteen lower-case hexadecimal
/// digits.
pub proof fn lemma_time_ids_sort_by_time(secs1: nat, nanos1: nat, secs2: nat, nanos2: nat)
    requires
        secs1 < 0x1_0000_0000,
        secs2 < 0x1_0000_0000,
        nanos1 < 1_000_000_000,
        nanos2 < 1_000_000_000,
        secs1 < secs2 || (secs1 == secs2 && nanos1 < nanos2),
    ensures
        is_time_id_shape(id_from_time(secs1, nanos1)),
        is_time_id_shape(id_from_time(secs2, nanos2)),
        lex_less(id_from_time(secs1, nanos1), id_from_time(secs2, nanos2)),
{
    reveal_with_fuel(pow16, 9);
    assert(pow16(8) == 0x1_0000_0000);
    lemma_hex_padded_fixed(secs1, 8);
    lemma_hex_padded_fixed(secs2, 8);
    lemma_hex_padded_fixed(nanos1, 8);
    lemma_hex_padded_fixed(nanos2, 8);
    lemma_time_id_shape(secs1, nanos1);
    lemma_time_id_shape(secs2, nanos2);
    let a1 = hex_padded(secs1, 8);
    let b1 = hex_padded(nanos1, 8);
    let a2 = hex_padded(secs2, 8);
    let b2 = hex_padded(nanos2, 8);
    let x = a1 + b1;
    let y = a2 + b2;
    if secs1 < secs2 {
        let i = lemma_hex_fixed_ordered(secs1, secs2, 8);
        assert(x.take(i) =~= a1.take(i));
        assert(y.take(i) =~= a2.take(i));
        assert(x[i] == a1[i] && y[i] == a2[i]);
        assert(x.take(i) == y.take(i));
    } else {
        let j = lemma_hex_fixed_ordered(nanos1, nanos2, 8);
        let i = 8 + j;
        assert(x.take(i) =~= a1 + b1.take(j));
        assert(y.take(i) =~= a2 + b2.take(j));
        assert(x[i] == b1[j] && y[i] == b2[j]);
        assert(x.take(i) == y.take(i));
    }
}

/// An id made from a time before 2^32 seconds after the epoch, with
/// nanoseconds below 2^32, has the shape `is_time_id_shape`.
proof fn lemma_time_id_shape(secs: nat, nanos: nat)
    requires
        secs < 0x1_0000_0000,
        nanos < 0x1_0000_0000,
    ensures
        is_time_id_shape(id_from_time(secs, nanos)),
{
    reveal_with_fuel(pow16, 9);
    assert(pow16(8) == 0x1_0000_0000);
    lemma_hex_padded_fixed(secs, 8);
    lemma_hex_padded_fixed(nanos, 8);
    lemma_hex_padded_lower(secs, 8);
    lemma_hex_padded_lower(nanos, 8);
    lemma_hex_fixed_len(secs, 8);
    lemma_hex_fixed_len(nanos, 8);
    let a = hex_padded(secs, 8);
    let b = hex_padded(nanos, 8);
    assert forall|i: int| 0 <= i < 16 implies is_lower_hex_digit(#[trigger] (a + b)[i]) by {
        if i < 8 {
            assert(is_lower_hex_digit(a[i]));
        } else {
            assert(is_lower_hex_digit(b[i - 8]));
        }
    }
}

/// `SystemTime::now()` measured from the Unix epoch, as whole seconds and the
/// nanoseconds past them (zero when the clock reads before the epoch). Nothing
/// is stated of the value but the range of the nanoseconds, which
/// `Duration::subsec_nanos` documents as below one billion.
#[verifier::external_body]
fn unix_time_now() -> (r: (u64, u32))
    ensures
        r.1 < 1_000_000_000,
{
    let d = std::time::SystemTime::now().duration_since(std::time::UNIX_EPOCH).unwrap_or_default();
    (d.as_secs(), d.subsec_nanos())
}

/// A fresh id from the current time.
pub fn generate_shortcut_id() -> (r: String)
    ensures
        exists|secs: u64, nanos: u32| nanos < 1_000_000_000 && r@ == id_from_time(secs as nat, nanos as nat),
        is_valid_id(r@),
{
    let (secs, nanos) = unix_time_now();
    let r = format_shortcut_id(secs, nanos);
    proof {
        lemma_time_id_valid(secs as nat, nanos as nat);
    }
    r
}


// ---------------------------------------------------------------------------
// Data-store identifiers and their directory names
// ---------------------------------------------------------------------------

/// An ASCII hexadecimal digit, as a byte.
pub open spec fn is_hex_byte(b: u8) -> bool {
    ||| 0x30 <= b <= 0x39
    ||| 0x61 <= b <= 0x66
    ||| 0x41 <= b <= 0x46
}

/// The value of a hexadecimal digit byte.
pub open spec fn hex_byte_value(b: u8) -> int {
    if 0x30 <= b <= 0x39 {
        b - 0x30
    } else if 0x61 <= b <= 0x66 {
        b - 0x61 + 10
    } else {
        b - 0x41 + 10
    }
}

/// What `u8::from_str_radix(chunk, 16)` yields for a chunk of one or two bytes,
/// with 0 in place of an error: two digits, one digit, or `+` and one digit.
pub open spec fn chunk_value(c: Seq<u8>) -> u8 {
    if c.len() == 2 && is_hex_byte(c[0]) && is_hex_byte(c[1]) {
        (16 * hex_byte_value(c[0]) + hex_byte_value(c[1])) as u8
    } else if c.len() == 2 && c[0] == 0x2b && is_hex_byte(c[1]) {
        hex_byte_value(c[1]) as u8
    } else if c.len() == 1 && is_hex_byte(c[0]) {
        hex_byte_value(c[0]) as u8
    } else {
        0
    }
}

/// The byte chunk `k` of an id: bytes `2k` and `2k + 1`, or just `2k` at the end.
pub open spec fn id_chunk(bytes: Seq<u8>, k: int) -> Seq<u8> {
    bytes.subrange(2 * k, if 2 * k + 2 <= bytes.len() { 2 * k + 2 } else { bytes.len() as int })
}

/// The data-store identifier of an entry: its first eight two-byte chunks read as
/// hexadecimal (a chunk that does not parse gives 0), then zeros to 16 bytes.
pub open spec fn data_store_id_of(bytes: Seq<u8>) -> Seq<u8> {
    Seq::new(
        16,
        |i: int|
            if i < 8 && 2 * i < bytes.len() {
                chunk_value(id_chunk(bytes, i))
            } else {
                0u8
            },
    )
}

fn hex_byte(b: u8) -> (r: bool)
    ensures
        r == is_hex_byte(b),
{
    (0x30 <= b && b <= 0x39) || (0x61 <= b && b <= 0x66) || (0x41 <= b && b <= 0x46)
}

fn hex_byte_val(b: u8) -> (r: u8)
    requires
        is_hex_byte(b),
    ensures
        r == hex_byte_value(b),
        r < 16,
{
    if b <= 0x39 {
        b - 0x30
    } else if b >= 0x61 {
        b - 0x61 + 10
    } else {
        b - 0x41 + 10
    }
}

/// The value of the chunk `bytes[lo..hi]`, one or two bytes long.
fn parse_chunk(bytes: &[u8], lo: usize, hi: usize) -> (r: u8)
    requires
        lo < hi <= bytes@.len(),
        hi - lo <= 2,
    ensures
        r == chunk_value(bytes@.subrange(lo as int, hi as int)),
{
    let ghost c = bytes@.subrange(lo as int, hi as int);
    if hi - lo == 2 {
        let a = bytes[lo];
        let b = bytes[lo + 1];
        assert(c[0] == a && c[1] == b);
        if hex_byte(a) && hex_byte(b) {
            16 * hex_byte_val(a) + hex_byte_val(b)
        } else if a == 0x2b && hex_byte(b) {
            hex_byte_val(b)
        } else {
            0
        }
    } else {
        let a = bytes[lo];
        assert(c[0] == a);
        if hex_byte(a) {
            hex_byte_val(a)
        } else {
            0
        }
    }
}

/// The identifier of the WebKit data store that keeps the session of the entry
/// with this id.
pub fn shortcut_id_to_data_store_id(shortcut_id: &str) -> (r: [u8; 16])
    ensures
        r@ == data_store_id_of(shortcut_id.spec_bytes()),
{
    let bytes = shortcut_id.as_bytes();
    let mut result = [0u8; 16];
    let mut i: usize = 0;
    while i < 8 && 2 * i < bytes.len()
        invariant
            i <= 8,
            result@.len() == 16,
            bytes@ == shortcut_id.spec_bytes(),
            forall|k: int| 0 <= k < i ==> #[trigger] result@[k] == data_store_id_of(bytes@)[k],
            forall|k: int| i <= k < 16 ==> #[trigger] result@[k] == 0u8,
        decreases 8 - i,
    {
        let lo = 2 * i;
        let hi = if lo + 2 <= bytes.len() { lo + 2 } else { bytes.len() };
        let v = parse_chunk(bytes, lo, hi);
        result[i] = v;
        i = i + 1;
    }
    assert(result@ =~= data_store_id_of(bytes@));
    result
}

/// The lower-case hexadecimal form of a byte sequence, two digits per byte.
pub open spec fn hex_of_bytes(id: Seq<u8>) -> Seq<char>
    decreases id.len(),
{
    if id.len() == 0 {
        Seq::empty()
    } else {
        hex_of_bytes(id.drop_last()) + seq![hex_char((id.last() / 16) as nat), hex_char((id.last() % 16) as nat)]
    }
}

/// The directory name WebKit gives the data store with this identifier: its
/// hexadecimal form grouped 8-4-4-4-12 by dashes, as in a UUID.
pub open spec fn data_store_dir_name_of(id: Seq<u8>) -> Seq<char> {
    let h = hex_of_bytes(id);
    h.subrange(0, 8) + seq!['-'] + h.subrange(8, 12) + seq!['-'] + h.subrange(12, 16) + seq!['-']
        + h.subrange(16, 20) + seq!['-'] + h.subrange(20, 32)
}

pub proof fn lemma_hex_of_bytes(id: Seq<u8>)
    ensures
        hex_of_bytes(id).len() == 2 * id.len(),
        forall|i: int| #![trigger id[i]] 0 <= i < id.len() ==> {
            &&& hex_of_bytes(id)[2 * i] == hex_char((id[i] / 16) as nat)
            &&& hex_of_bytes(id)[2 * i + 1] == hex_char((id[i] % 16) as nat)
        },
    decreases id.len(),
{
    if id.len() > 0 {
        lemma_hex_of_bytes(id.drop_last());
        let h = hex_of_bytes(id.drop_last());
        assert forall|i: int| #![trigger id[i]] 0 <= i < id.len() implies {
            &&& hex_of_bytes(id)[2 * i] == hex_char((id[i] / 16) as nat)
            &&& hex_of_bytes(id)[2 * i + 1] == hex_char((id[i] % 16) as nat)
        } by {
            if i < id.len() - 1 {
                assert(id.drop_last()[i] == id[i]);
            }
        }
    }
}

fn push_hex_byte(out: &mut Vec<char>, b: u8)
    ensures
        final(out)@ == old(out)@ + seq![hex_char((b / 16) as nat), hex_char((b % 16) as nat)],
{
    out.push(hex_digit_char(b / 16));
    out.push(hex_digit_char(b % 16));
}

/// Formats a data-store identifier the way WebKit names its on-disk directory.
pub fn data_store_dir_name(id: [u8; 16]) -> (r: String)
    ensures
        r@ == data_store_dir_name_of(id@),
{
    let mut hex: Vec<char> = Vec::new();
    let mut i: usize = 0;
    while i < 16
        invariant
            i <= 16,
            id@.len() == 16,
            hex@ == hex_of_bytes(id@.take(i as int)),
        decreases 16 - i,
    {
        let ghost before = hex@;
        push_hex_byte(&mut hex, id[i]);
        assert(id@.take(i + 1).drop_last() =~= id@.take(i as int));
        i = i + 1;
    }
    assert(id@.take(16) =~= id@);
    proof {
        lemma_hex_of_bytes(id@);
    }
    let mut out: Vec<char> = Vec::new();
    let a = sub_chars(&hex, 0, 8);
    push_chars(&mut out, &a);
    out.push('-');
    let b = sub_chars(&hex, 8, 12);
    push_chars(&mut out, &b);
    out.push('-');
    let c = sub_chars(&hex, 12, 16);
    push_chars(&mut out, &c);
    out.push('-');
    let d = sub_chars(&hex, 16, 20);
    push_chars(&mut out, &d);
    out.push('-');
    let e = sub_chars(&hex, 20, 32);
    push_chars(&mut out, &e);
    string_of(&out)
}

/// A canonical lower-case UUID: 36 characters, dashes at 8, 13, 18 and 23,
/// lower-case hexadecimal digits everywhere else. This is the same as splitting
/// at `-` into exactly five parts of 8, 4, 4, 4 and 12 such digits.
pub open spec fn is_uuid_dir_name(name: Seq<char>) -> bool {
    &&& name.len() == 36
    &&& forall|i: int|
        0 <= i < 36 ==> (if i == 8 || i == 13 || i == 18 || i == 23 {
            #[trigger] name[i] == '-'
        } else {
            is_lower_hex_digit(name[i])
        })
}

/// True for a name that `data_store_dir_name` could have produced.
pub fn is_data_store_dir_name(name: &str) -> (r: bool)
    ensures
        r == is_uuid_dir_name(name@),
{
    let v = chars_of(name);
    if v.len() != 36 {
        return false;
    }
    let mut i: usize = 0;
    while i < 36
        invariant
            i <= 36,
            v@ == name@,
            v@.len() == 36,
            forall|k: int|
                0 <= k < i ==> (if k == 8 || k == 13 || k == 18 || k == 23 {
                    #[trigger] v@[k] == '-'
                } else {
                    is_lower_hex_digit(v@[k])
                }),
        decreases 36 - i,
    {
        let c = v[i];
        if i == 8 || i == 13 || i == 18 || i == 23 {
            if c != '-' {
                return false;
            }
        } else if !(('0' <= c && c <= '9') || ('a' <= c && c <= 'f')) {
            return false;
        }
        i = i + 1;
    }
    true
}

/// Every directory name made from a data-store identifier is recognised as one.
pub proof fn lemma_dir_name_recognised(id: Seq<u8>)
    requires
        id.len() == 16,
    ensures
        is_uuid_dir_name(data_store_dir_name_of(id)),
{
    lemma_hex_of_bytes(id);
    let h = hex_of_bytes(id);
    assert forall|i: int| 0 <= i < 32 implies is_lower_hex_digit(#[trigger] h[i]) by {
        let j = i / 2;
        assert(0 <= id[j] < 256);
        if i % 2 == 0 {
            assert(h[2 * j] == hex_char((id[j] / 16) as nat));
        } else {
            assert(h[2 * j + 1] == hex_char((id[j] % 16) as nat));
        }
    }
    let n = data_store_dir_name_of(id);
    assert forall|i: int| 0 <= i < 36 implies (if i == 8 || i == 13 || i == 18 || i == 23 {
        #[trigger] n[i] == '-'
    } else {
        is_lower_hex_digit(n[i])
    }) by {
        if i < 8 {
            assert(n[i] == h[i]);
        } else if 8 < i < 13 {
            assert(n[i] == h[i - 1]);
        } else if 13 < i < 18 {
            assert(n[i] == h[i - 2]);
        } else if 18 < i < 23 {
            assert(n[i] == h[i - 3]);
        } else if 23 < i {
            assert(n[i] == h[i - 4]);
        }
    }
}


/// Different data-store identifiers have different directory names, so the
/// sweep can tell the stores apart by name.
pub proof fn lemma_dir_name_injective(a: Seq<u8>, b: Seq<u8>)
    requires
        a.len() == 16,
        b.len() == 16,
        data_store_dir_name_of(a) == data_store_dir_name_of(b),
    ensures
        a == b,
{
    lemma_hex_of_bytes(a);
    lemma_hex_of_bytes(b);
    let ha = hex_of_bytes(a);
    let hb = hex_of_bytes(b);
    let na = data_store_dir_name_of(a);
    let nb = data_store_dir_name_of(b);
    assert forall|i: int| 0 <= i < 32 implies ha[i] == hb[i] by {
        if i < 8 {
            assert(na[i] == ha[i] && nb[i] == hb[i]);
        } else if i < 12 {
            assert(na[i + 1] == ha[i] && nb[i + 1] == hb[i]);
        } else if i < 16 {
            assert(na[i + 2] == ha[i] && nb[i + 2] == hb[i]);
        } else if i < 20 {
            assert(na[i + 3] == ha[i] && nb[i + 3] == hb[i]);
        } else {
            assert(na[i + 4] == ha[i] && nb[i + 4] == hb[i]);
        }
    }
    assert forall|i: int| 0 <= i < 16 implies a[i] == b[i] by {
        assert(ha[2 * i] == hex_char((a[i] / 16) as nat));
        assert(hb[2 * i] == hex_char((b[i] / 16) as nat));
        assert(ha[2 * i + 1] == hex_char((a[i] % 16) as nat));
        assert(hb[2 * i + 1] == hex_char((b[i] % 16) as nat));
        lemma_hex_char_injective((a[i] / 16) as nat, (b[i] / 16) as nat);
        lemma_hex_char_injective((a[i] % 16) as nat, (b[i] % 16) as nat);
    }
    assert(a =~= b);
}

/// The lower-case hexadecimal digit of a digit's value is the digit itself.
proof fn lemma_hex_char_of_value(c: char)
    requires
        is_lower_hex_digit(c),
    ensures
        hex_value(c) < 16,
        hex_char(hex_value(c)) == c,
{
}

/// The identifier whose directory name is `name`, for a name of the accepted
/// shape: the 32 hexadecimal digits read two by two.
pub open spec fn dir_name_id(name: Seq<char>) -> Seq<u8> {
    let h = dir_name_digits(name);
    Seq::new(16, |i: int| (16 * hex_value(h[2 * i]) + hex_value(h[2 * i + 1])) as u8)
}

/// The 32 digits of a directory name, its dashes left out.
pub open spec fn dir_name_digits(name: Seq<char>) -> Seq<char> {
    name.subrange(0, 8) + name.subrange(9, 13) + name.subrange(14, 18) + name.subrange(19, 23) + name.subrange(24, 36)
}

/// Every directory name that passes the sweep's gate is the name of exactly one
/// data-store identifier: `dir_name_id(name)`.
pub proof fn lemma_dir_name_has_one_id(name: Seq<char>)
    requires
        is_uuid_dir_name(name),
    ensures
        dir_name_id(name).len() == 16,
        data_store_dir_name_of(dir_name_id(name)) == name,
        forall|other: Seq<u8>|
            other.len() == 16 && #[trigger] data_store_dir_name_of(other) == name ==> other == dir_name_id(name),
{
    let h = dir_name_digits(name);
    let id = dir_name_id(name);
    assert forall|k: int| 0 <= k < 32 implies is_lower_hex_digit(#[trigger] h[k]) by {
        if k < 8 {
            assert(h[k] == name[k]);
        } else if k < 12 {
            assert(h[k] == name[k + 1]);
        } else if k < 16 {
            assert(h[k] == name[k + 2]);
        } else if k < 20 {
            assert(h[k] == name[k + 3]);
        } else {
            assert(h[k] == name[k + 4]);
        }
    }
    lemma_hex_of_bytes(id);
    let hx = hex_of_bytes(id);
    assert forall|k: int| 0 <= k < 32 implies #[trigger] hx[k] == h[k] by {
        let j = k / 2;
        let a = hex_value(h[2 * j]);
        let b = hex_value(h[2 * j + 1]);
        lemma_hex_char_of_value(h[2 * j]);
        lemma_hex_char_of_value(h[2 * j + 1]);
        assert(id[j] == 16 * a + b);
        assert((16 * a + b) / 16 == a && (16 * a + b) % 16 == b) by (nonlinear_arith)
            requires
                a < 16,
                b < 16,
        ;
        assert(hx[2 * j] == hex_char((id[j] / 16) as nat));
        assert(hx[2 * j + 1] == hex_char((id[j] % 16) as nat));
    }
    assert(hx =~= h);
    let n = data_store_dir_name_of(id);
    assert forall|i: int| 0 <= i < 36 implies #[trigger] n[i] == name[i] by {
        if i < 8 {
            assert(n[i] == h[i]);
        } else if 8 < i < 13 {
            assert(n[i] == h[i - 1]);
        } else if 13 < i < 18 {
            assert(n[i] == h[i - 2]);
        } else if 18 < i < 23 {
            assert(n[i] == h[i - 3]);
        } else if 23 < i {
            assert(n[i] == h[i - 4]);
        }
    }
    assert(n =~= name);
    assert forall|other: Seq<u8>|
        other.len() == 16 && #[trigger] data_store_dir_name_of(other) == name implies other == id by {
        lemma_dir_name_injective(other, id);
    }
}

/// The shape of an id that `generate_shortcut_id` makes: sixteen lower-case
/// hexadecimal digits.
pub open spec fn is_time_id_shape(id: Seq<char>) -> bool {
    id.len() == 16 && forall|i: int| 0 <= i < 16 ==> is_lower_hex_digit(#[trigger] id[i])
}

/// The byte of a lower-case hexadecimal digit is a hexadecimal byte of the
/// same value.
proof fn lemma_hex_byte_of_digit(c: char)
    requires
        is_lower_hex_digit(c),
    ensures
        is_hex_byte(c as u8),
        hex_byte_value(c as u8) == hex_value(c),
        (c as u8) as u32 == c as u32,
{
}

/// Two ids of the shape `generate_shortcut_id` makes that differ get
/// different data stores, so distinct shortcuts never share a session.
pub proof fn lemma_data_store_id_injective(a: Seq<char>, b: Seq<char>)
    requires
        is_time_id_shape(a),
        is_time_id_shape(b),
        a != b,
    ensures
        data_store_id_of(vstd::utf8::encode_utf8(a)) != data_store_id_of(vstd::utf8::encode_utf8(b)),
{
    assert(vstd::utf8::is_ascii_chars(a));
    assert(vstd::utf8::is_ascii_chars(b));
    vstd::utf8::is_ascii_chars_encode_utf8(a);
    vstd::utf8::is_ascii_chars_encode_utf8(b);
    let ba = vstd::utf8::encode_utf8(a);
    let bb = vstd::utf8::encode_utf8(b);
    if data_store_id_of(ba) == data_store_id_of(bb) {
        assert forall|i: int| 0 <= i < 16 implies #[trigger] a[i] == b[i] by {
            let k = i / 2;
            let ca = id_chunk(ba, k);
            let cb = id_chunk(bb, k);
            assert(ca[0] == ba[2 * k] && ca[1] == ba[2 * k + 1]);
            assert(cb[0] == bb[2 * k] && cb[1] == bb[2 * k + 1]);
            lemma_hex_byte_of_digit(a[2 * k]);
            lemma_hex_byte_of_digit(a[2 * k + 1]);
            lemma_hex_byte_of_digit(b[2 * k]);
            lemma_hex_byte_of_digit(b[2 * k + 1]);
            let x0 = hex_value(a[2 * k]);
            let x1 = hex_value(a[2 * k + 1]);
            let y0 = hex_value(b[2 * k]);
            let y1 = hex_value(b[2 * k + 1]);
            lemma_hex_char_of_value(a[2 * k]);
            lemma_hex_char_of_value(a[2 * k + 1]);
            lemma_hex_char_of_value(b[2 * k]);
            lemma_hex_char_of_value(b[2 * k + 1]);
            assert(data_store_id_of(ba)[k] == data_store_id_of(bb)[k]);
            assert(chunk_value(ca) == (16 * x0 + x1) as u8);
            assert(chunk_value(cb) == (16 * y0 + y1) as u8);
            assert(x0 == y0 && x1 == y1) by (nonlinear_arith)
                requires
                    x0 < 16,
                    x1 < 16,
                    y0 < 16,
                    y1 < 16,
                    16 * x0 + x1 == 16 * y0 + y1,
            ;
            assert(a[2 * k] == hex_char(x0) && b[2 * k] == hex_char(y0));
            assert(a[2 * k + 1] == hex_char(x1) && b[2 * k + 1] == hex_char(y1));
        }
        assert(a =~= b);
    }
}

proof fn lemma_hex_char_injective(x: nat, y: nat)
    requires
        x < 16,
        y < 16,
        hex_char(x) == hex_char(y),
    ensures
        x == y,
{
}

} // verus!
