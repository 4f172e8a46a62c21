use vstd::prelude::*;
use vstd::string::StrSliceExecFns;

verus! {

pub open spec fn hex_chars() -> Seq<char> {
    seq!['0', '1', '2', '3', '4', '5', '6', '7', '8', '9', 'a', 'b', 'c', 'd', 'e', 'f']
}

/// The last `n` base-16 digits of `v`, most significant first.
pub open spec fn hex_of(v: nat, n: nat) -> Seq<int>
    decreases n,
{
    if n == 0 {
        Seq::empty()
    } else {
        hex_of(v / 16, (n - 1) as nat).push((v % 16) as int)
    }
}

pub open spec fn is_hyphen_at(i: int) -> bool {
    i == 8 || i == 13 || i == 18 || i == 23
}

/// Which hex digit stands at position `i` of the hyphenated text.
pub open spec fn digit_at(i: int) -> int {
    if i < 8 {
        i
    } else if i < 13 {
        i - 1
    } else if i < 18 {
        i - 2
    } else if i < 23 {
        i - 3
    } else {
        i - 4
    }
}

/// The hyphenated lower-case text of the UUID with value `v`: its 32 hex
/// digits, most significant first, in groups of 8, 4, 4, 4 and 12.
pub open spec fn uuid_text_of(v: u128) -> Seq<char> {
    Seq::new(
        36,
        |i: int|
            if is_hyphen_at(i) {
                '-'
            } else {
                hex_chars()[hex_of(v as nat, 32)[digit_at(i)]]
            },
    )
}

/// Relies on `uuid::Uuid::from_u128` (the value's 16 bytes, most significant
/// first) and `Uuid`'s `Display`, which writes the hyphenated lower-case form.
#[verifier::external_body]
fn uuid_text(v: u128) -> (r: String)
    ensures
        r@ == uuid_text_of(v),
{
    uuid::Uuid::from_u128(v).to_string()
}

pub open spec fn pow16(n: nat) -> nat
    decreases n,
{
    if n == 0 {
        1
    } else {
        16 * pow16((n - 1) as nat)
    }
}

proof fn lemma_hex_len(v: nat, n: nat)
    ensures
        hex_of(v, n).len() == n,
        forall|k: int| 0 <= k < n ==> 0 <= #[trigger] hex_of(v, n)[k] < 16,
    decreases n,
{
    if n > 0 {
        lemma_hex_len(v / 16, (n - 1) as nat);
    }
}

proof fn lemma_hex_injective(a: nat, b: nat, n: nat)
    requires
        hex_of(a, n) == hex_of(b, n),
        a < pow16(n),
        b < pow16(n),
    ensures
        a == b,
    decreases n,
{
    if n > 0 {
        let p = pow16((n - 1) as nat);
        assert(hex_of(a, n) == hex_of(a / 16, (n - 1) as nat).push((a % 16) as int));
        assert(hex_of(b, n) == hex_of(b / 16, (n - 1) as nat).push((b % 16) as int));
        assert(hex_of(a, n).last() == (a % 16) as int);
        assert(hex_of(b, n).last() == (b % 16) as int);
        assert(a % 16 == b % 16);
        assert(hex_of(a, n).drop_last() =~= hex_of(a / 16, (n - 1) as nat));
        assert(hex_of(b, n).drop_last() =~= hex_of(b / 16, (n - 1) as nat));
        assert(a / 16 < p) by (nonlinear_arith)
            requires
                a < 16 * p,
        ;
        assert(b / 16 < p) by (nonlinear_arith)
            requires
                b < 16 * p,
        ;
        lemma_hex_injective(a / 16, b / 16, (n - 1) as nat);
    }
}

proof fn lemma_hex_char_injective(i: int, j: int)
    requires
        0 <= i < 16,
        0 <= j < 16,
        hex_chars()[i] == hex_chars()[j],
    ensures
        i == j,
{
    let h = hex_chars();
    assert(h[0] == '0' && h[1] == '1' && h[2] == '2' && h[3] == '3' && h[4] == '4' && h[5] == '5');
    assert(h[6] == '6' && h[7] == '7' && h[8] == '8' && h[9] == '9' && h[10] == 'a');
    assert(h[11] == 'b' && h[12] == 'c' && h[13] == 'd' && h[14] == 'e' && h[15] == 'f');
}

/// Distinct UUIDs have distinct texts.
pub proof fn lemma_uuid_text_injective(a: u128, b: u128)
    requires
        uuid_text_of(a) == uuid_text_of(b),
    ensures
        a == b,
{
    lemma_hex_len(a as nat, 32);
    lemma_hex_len(b as nat, 32);
    let ha = hex_of(a as nat, 32);
    let hb = hex_of(b as nat, 32);
    assert forall|k: int| 0 <= k < 32 implies ha[k] == hb[k] by {
        let i = if k < 8 {
            k
        } else if k < 12 {
            k + 1
        } else if k < 16 {
            k + 2
        } else if k < 20 {
            k + 3
        } else {
            k + 4
        };
        assert(!is_hyphen_at(i) && digit_at(i) == k);
        assert(uuid_text_of(a)[i] == uuid_text_of(b)[i]);
        assert(uuid_text_of(a)[i] == hex_chars()[ha[k]]);
        assert(uuid_text_of(b)[i] == hex_chars()[hb[k]]);
        assert(0 <= ha[k] < 16 && 0 <= hb[k] < 16);
        lemma_hex_char_injective(ha[k], hb[k]);
    }
    assert(ha =~= hb);
    reveal_with_fuel(pow16, 33);
    assert(pow16(32) == 0x1_0000_0000_0000_0000_0000_0000_0000_0000nat);
    lemma_hex_injective(a as nat, b as nat, 32);
}

pub open spec fn digits() -> Seq<char> {
    seq!['0', '1', '2', '3', '4', '5', '6', '7', '8', '9']
}

/// The decimal numeral of `n`, without leading zeros.
pub open spec fn decimal(n: nat) -> Seq<char>
    decreases n,
{
    if n < 10 {
        seq![digits()[n as int]]
    } else {
        decimal(n / 10).push(digits()[(n % 10) as int])
    }
}

fn digit_char(d: u32) -> (c: char)
    requires
        d < 10,
    ensures
        c == digits()[d as int],
{
    match d {
        0 => '0',
        1 => '1',
        2 => '2',
        3 => '3',
        4 => '4',
        5 => '5',
        6 => '6',
        7 => '7',
        8 => '8',
        _ => '9',
    }
}

/// Appends the decimal numeral of `n`.
fn push_decimal(v: &mut Vec<char>, n: u32)
    ensures
        final(v)@ == old(v)@ + decimal(n as nat),
{
    let mut acc: Vec<char> = Vec::new();
    let mut m: u32 = n;
    assert(decimal(n as nat) =~= decimal(m as nat) + acc@);
    while m >= 10
        invariant
            decimal(n as nat) == decimal(m as nat) + acc@,
        decreases m,
    {
        let d = digit_char(m % 10);
        let ghost a0 = acc@;
        acc.insert(0, d);
        assert(decimal(m as nat) == decimal((m / 10) as nat).push(d));
        assert(decimal(m as nat) + a0 =~= decimal((m / 10) as nat) + acc@);
        m = m / 10;
    }
    let ghost a0 = acc@;
    acc.insert(0, digit_char(m));
    assert(decimal(n as nat) =~= acc@);
    let mut i: usize = 0;
    let ghost v0 = v@;
    while i < acc.len()
        invariant
            i <= acc@.len(),
            v@ == v0 + acc@.subrange(0, i as int),
        decreases acc@.len() - i,
    {
        v.push(acc[i]);
        assert(acc@.subrange(0, i + 1) =~= acc@.subrange(0, i as int).push(acc@[i as int]));
        i = i + 1;
    }
    assert(acc@.subrange(0, i as int) =~= acc@);
}

/// Which of a device's three records a key names.
#[derive(Clone, Copy, Debug, PartialEq, Eq, Structural)]
pub enum KeyKind {
    Queue,
    Metadata,
    Index,
}

pub open spec fn kind_prefix(kind: KeyKind) -> Seq<char> {
    match kind {
        KeyKind::Queue => "user_queue"@,
        KeyKind::Metadata => "user_queue_metadata"@,
        KeyKind::Index => "user_queue_index"@,
    }
}

/// `<prefix>::{<uuid>::<device>}`.
pub open spec fn key_spec(kind: KeyKind, account: u128, device: u32) -> Seq<char> {
    kind_prefix(kind) + seq![':', ':', '{'] + uuid_text_of(account) + seq![':', ':'] + decimal(
        device as nat,
    ) + seq!['}']
}

fn push_str(v: &mut Vec<char>, s: &str)
    ensures
        final(v)@ == old(v)@ + s@,
{
    let n = s.unicode_len();
    let mut i: usize = 0;
    while i < n
        invariant
            n == s@.len(),
            i <= n,
            v@ == old(v)@ + s@.subrange(0, i as int),
        decreases n - i,
    {
        v.push(s.get_char(i));
        assert(s@.subrange(0, i + 1) =~= s@.subrange(0, i as int).push(s@[i as int]));
        i = i + 1;
    }
    assert(s@.subrange(0, n as int) =~= s@);
}

/// Every character is ASCII.
pub open spec fn all_ascii(s: Seq<char>) -> bool {
    forall|i: int| 0 <= i < s.len() ==> (#[trigger] s[i] as u32) < 128
}

/// The bytes of an ASCII text, one per character.
pub open spec fn ascii_bytes(s: Seq<char>) -> Seq<u8> {
    s.map_values(|c: char| (c as u32) as u8)
}

/// The bytes of the key of one of the device's records.
pub open spec fn key_bytes(kind: KeyKind, account: u128, device: u32) -> Seq<u8> {
    ascii_bytes(key_spec(kind, account, device))
}

proof fn lemma_concat_ascii(a: Seq<char>, b: Seq<char>)
    requires
        all_ascii(a),
        all_ascii(b),
    ensures
        all_ascii(a + b),
{
    assert forall|i: int| 0 <= i < (a + b).len() implies ((#[trigger] (a + b)[i]) as u32) < 128 by {
        if i < a.len() {
            assert((a + b)[i] == a[i]);
        } else {
            assert((a + b)[i] == b[i - a.len()]);
        }
    }
}

proof fn lemma_decimal_ascii(n: nat)
    ensures
        all_ascii(decimal(n)),
    decreases n,
{
    let d = digits();
    assert(d[0] == '0' && d[1] == '1' && d[2] == '2' && d[3] == '3' && d[4] == '4');
    assert(d[5] == '5' && d[6] == '6' && d[7] == '7' && d[8] == '8' && d[9] == '9');
    if n < 10 {
        assert(decimal(n)[0] == d[n as int]);
    } else {
        lemma_decimal_ascii(n / 10);
        let k = (n % 10) as int;
        assert(decimal(n) == decimal(n / 10) + seq![d[k]]);
        assert(all_ascii(seq![d[k]])) by {
            assert(seq![d[k]][0] == d[k]);
        }
        lemma_concat_ascii(decimal(n / 10), seq![d[k]]);
    }
}

proof fn lemma_uuid_ascii(v: u128)
    ensures
        all_ascii(uuid_text_of(v)),
{
    lemma_hex_len(v as nat, 32);
    let h = hex_chars();
    assert(h[0] == '0' && h[1] == '1' && h[2] == '2' && h[3] == '3' && h[4] == '4' && h[5] == '5');
    assert(h[6] == '6' && h[7] == '7' && h[8] == '8' && h[9] == '9' && h[10] == 'a');
    assert(h[11] == 'b' && h[12] == 'c' && h[13] == 'd' && h[14] == 'e' && h[15] == 'f');
    assert forall|i: int| 0 <= i < uuid_text_of(v).len() implies (#[trigger] uuid_text_of(v)[i] as u32)
        < 128 by {
        if !is_hyphen_at(i) {
            let k = digit_at(i);
            assert(0 <= k < 32);
            assert(0 <= hex_of(v as nat, 32)[k] < 16);
        }
    }
}

proof fn lemma_key_ascii(kind: KeyKind, account: u128, device: u32)
    ensures
        all_ascii(key_spec(kind, account, device)),
{
    reveal_strlit("user_queue");
    reveal_strlit("user_queue_metadata");
    reveal_strlit("user_queue_index");
    let p = kind_prefix(kind);
    assert(all_ascii(p));
    let c3 = seq![':', ':', '{'];
    let c2 = seq![':', ':'];
    let c1 = seq!['}'];
    assert(all_ascii(c3)) by {
        assert(c3[0] == ':' && c3[1] == ':' && c3[2] == '{');
    }
    assert(all_ascii(c2)) by {
        assert(c2[0] == ':' && c2[1] == ':');
    }
    assert(all_ascii(c1)) by {
        assert(c1[0] == '}');
    }
    lemma_uuid_ascii(account);
    lemma_decimal_ascii(device as nat);
    lemma_concat_ascii(p, c3);
    lemma_concat_ascii(p + c3, uuid_text_of(account));
    lemma_concat_ascii(p + c3 + uuid_text_of(account), c2);
    lemma_concat_ascii(p + c3 + uuid_text_of(account) + c2, decimal(device as nat));
    lemma_concat_ascii(p + c3 + uuid_text_of(account) + c2 + decimal(device as nat), c1);
}

fn to_bytes(v: &Vec<char>) -> (r: Vec<u8>)
    requires
        all_ascii(v@),
    ensures
        r@ == ascii_bytes(v@),
{
    let mut r: Vec<u8> = Vec::new();
    let mut i: usize = 0;
    while i < v.len()
        invariant
            i <= v@.len(),
            all_ascii(v@),
            r@ == ascii_bytes(v@.subrange(0, i as int)),
        decreases v@.len() - i,
    {
        let c = v[i];
        assert((v@[i as int] as u32) < 128);
        r.push((c as u32) as u8);
        assert(ascii_bytes(v@.subrange(0, i + 1)) =~= ascii_bytes(v@.subrange(0, i as int)).push(
            (c as u32) as u8,
        ));
        i = i + 1;
    }
    assert(v@.subrange(0, i as int) =~= v@);
    r
}

/// The key of one of the device's records.
pub fn record_key(kind: KeyKind, account: u128, device: u32) -> (r: Vec<char>)
    ensures
        r@ == key_spec(kind, account, device),
{
    let mut v: Vec<char> = Vec::new();
    let prefix: &str = match kind {
        KeyKind::Queue => "user_queue",
        KeyKind::Metadata => "user_queue_metadata",
        KeyKind::Index => "user_queue_index",
    };
    push_str(&mut v, prefix);
    v.push(':');
    v.push(':');
    v.push('{');
    let a = uuid_text(account);
    push_str(&mut v, a.as_str());
    v.push(':');
    v.push(':');
    push_decimal(&mut v, device);
    v.push('}');
    assert(v@ =~= key_spec(kind, account, device));
    v
}

/// The key of the device's ordered queue.
pub fn get_message_queue_key(account_uuid: u128, device_id: u32) -> (r: Vec<u8>)
    ensures
        r@ == key_bytes(KeyKind::Queue, account_uuid, device_id),
{
    let k = record_key(KeyKind::Queue, account_uuid, device_id);
    proof {
        lemma_key_ascii(KeyKind::Queue, account_uuid, device_id);
    }
    to_bytes(&k)
}

/// The key of the device's queue metadata.
pub fn get_message_queue_metadata_key(account_uuid: u128, device_id: u32) -> (r: Vec<u8>)
    ensures
        r@ == key_bytes(KeyKind::Metadata, account_uuid, device_id),
{
    let k = record_key(KeyKind::Metadata, account_uuid, device_id);
    proof {
        lemma_key_ascii(KeyKind::Metadata, account_uuid, device_id);
    }
    to_bytes(&k)
}

/// The key of the device's guid index.
pub fn get_queue_index_key(account_uuid: u128, device_id: u32) -> (r: Vec<u8>)
    ensures
        r@ == key_bytes(KeyKind::Index, account_uuid, device_id),
{
    let k = record_key(KeyKind::Index, account_uuid, device_id);
    proof {
        lemma_key_ascii(KeyKind::Index, account_uuid, device_id);
    }
    to_bytes(&k)
}

pub proof fn lemma_decimal_len(n: nat)
    ensures
        decimal(n).len() >= 1,
        n >= 10 ==> decimal(n).len() >= 2,
    decreases n,
{
    if n >= 10 {
        lemma_decimal_len(n / 10);
    }
}

proof fn lemma_digit_injective(i: int, j: int)
    requires
        0 <= i < 10,
        0 <= j < 10,
        digits()[i] == digits()[j],
    ensures
        i == j,
{
    let d = digits();
    assert(d[0] == '0' && d[1] == '1' && d[2] == '2' && d[3] == '3' && d[4] == '4');
    assert(d[5] == '5' && d[6] == '6' && d[7] == '7' && d[8] == '8' && d[9] == '9');
}

/// Distinct numbers have distinct numerals.
pub proof fn lemma_decimal_injective(m: nat, n: nat)
    requires
        decimal(m) == decimal(n),
    ensures
        m == n,
    decreases m,
{
    lemma_decimal_len(m);
    lemma_decimal_len(n);
    if m < 10 && n < 10 {
        assert(decimal(m) == seq![digits()[m as int]]);
        assert(decimal(n) == seq![digits()[n as int]]);
        assert(seq![digits()[m as int]][0] == digits()[m as int]);
        assert(seq![digits()[n as int]][0] == digits()[n as int]);
        lemma_digit_injective(m as int, n as int);
    } else if m >= 10 && n >= 10 {
        assert(decimal(m) == decimal(m / 10).push(digits()[(m % 10) as int]));
        assert(decimal(n) == decimal(n / 10).push(digits()[(n % 10) as int]));
        assert(decimal(m).last() == digits()[(m % 10) as int]);
        assert(decimal(n).last() == digits()[(n % 10) as int]);
        assert(decimal(m).drop_last() =~= decimal(m / 10));
        assert(decimal(n).drop_last() =~= decimal(n / 10));
        lemma_decimal_injective(m / 10, n / 10);
        lemma_digit_injective((m % 10) as int, (n % 10) as int);
    }
}

/// Keys never collide: two keys are equal only for the same kind of record,
/// the same identity and the same device.
pub proof fn lemma_keys_distinct(k1: KeyKind, a1: u128, d1: u32, k2: KeyKind, a2: u128, d2: u32)
    requires
        key_spec(k1, a1, d1) == key_spec(k2, a2, d2),
    ensures
        k1 == k2,
        a1 == a2,
        d1 == d2,
{
    reveal_strlit("user_queue");
    reveal_strlit("user_queue_metadata");
    reveal_strlit("user_queue_index");
    let s1 = key_spec(k1, a1, d1);
    let s2 = key_spec(k2, a2, d2);
    assert(s1[10] == (kind_prefix(k1) + seq![':', ':', '{'])[10]);
    assert(s1[11] == (kind_prefix(k1) + seq![':', ':', '{'])[11]);
    assert(s2[10] == (kind_prefix(k2) + seq![':', ':', '{'])[10]);
    assert(s2[11] == (kind_prefix(k2) + seq![':', ':', '{'])[11]);
    assert(k1 == k2);
    let head = kind_prefix(k1) + seq![':', ':', '{'];
    let l = head.len() as int;
    assert(s1 == head + uuid_text_of(a1) + seq![':', ':'] + decimal(d1 as nat) + seq!['}']);
    assert(s2 == head + uuid_text_of(a2) + seq![':', ':'] + decimal(d2 as nat) + seq!['}']);
    assert(s1.subrange(l, l + 36) =~= uuid_text_of(a1));
    assert(s2.subrange(l, l + 36) =~= uuid_text_of(a2));
    lemma_uuid_text_injective(a1, a2);
    let p = head + uuid_text_of(a1) + seq![':', ':'];
    assert(s1.subrange(p.len() as int, s1.len() - 1) =~= decimal(d1 as nat));
    assert(s2.subrange(p.len() as int, s2.len() - 1) =~= decimal(d2 as nat));
    lemma_decimal_injective(d1 as nat, d2 as nat);
}

/// The byte keys never collide either: equal keys come only from the same kind
/// of record, the same identity and the same device.
pub proof fn lemma_key_bytes_distinct(
    k1: KeyKind,
    a1: u128,
    d1: u32,
    k2: KeyKind,
    a2: u128,
    d2: u32,
)
    requires
        key_bytes(k1, a1, d1) == key_bytes(k2, a2, d2),
    ensures
        k1 == k2,
        a1 == a2,
        d1 == d2,
{
    let s1 = key_spec(k1, a1, d1);
    let s2 = key_spec(k2, a2, d2);
    lemma_key_ascii(k1, a1, d1);
    lemma_key_ascii(k2, a2, d2);
    assert(ascii_bytes(s1).len() == ascii_bytes(s2).len());
    assert forall|i: int| 0 <= i < s1.len() implies s1[i] == s2[i] by {
        assert(ascii_bytes(s1)[i] == ascii_bytes(s2)[i]);
        assert((s1[i] as u32) < 128 && (s2[i] as u32) < 128);
        assert(ascii_bytes(s1)[i] == (s1[i] as u32) as u8);
        assert(ascii_bytes(s2)[i] == (s2[i] as u32) as u8);
        assert(s1[i] as u32 == s2[i] as u32);
        vstd::utf8::char_u32_cast(s1[i], s1[i] as u32);
        vstd::utf8::char_u32_cast(s2[i], s2[i] as u32);
    }
    assert(s1 =~= s2);
    lemma_keys_distinct(k1, a1, d1, k2, a2, d2);
}

} // verus!
