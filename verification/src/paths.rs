//! The names of the files of a store.

use vstd::prelude::*;
use vstd::string::*;

verus! {

/// The character of a digit in base sixteen, in lower case.
pub open spec fn digit_char(d: nat) -> char {
    if d < 10 {
        ('0' as int + d) as char
    } else {
        ('a' as int + d - 10) as char
    }
}

/// A number in decimal, without leading zeros.
pub open spec fn decimal(n: nat) -> Seq<char>
    decreases n,
{
    if n < 10 {
        seq![digit_char(n)]
    } else {
        decimal(n / 10).push(digit_char(n % 10))
    }
}

/// Bytes in base sixteen, two characters each, in lower case.
pub open spec fn hex(bytes: Seq<u8>) -> Seq<char> {
    Seq::new(
        2 * bytes.len(),
        |i: int|
            if i % 2 == 0 {
                digit_char((bytes[i / 2] / 16) as nat)
            } else {
                digit_char((bytes[i / 2] % 16) as nat)
            },
    )
}

fn push_digit(s: &mut String, d: u8)
    requires
        d < 16,
    ensures
        final(s)@ == old(s)@.push(digit_char(d as nat)),
{
    proof {
        reveal_strlit("0");
        reveal_strlit("1");
        reveal_strlit("2");
        reveal_strlit("3");
        reveal_strlit("4");
        reveal_strlit("5");
        reveal_strlit("6");
        reveal_strlit("7");
        reveal_strlit("8");
        reveal_strlit("9");
        reveal_strlit("a");
        reveal_strlit("b");
        reveal_strlit("c");
        reveal_strlit("d");
        reveal_strlit("e");
        reveal_strlit("f");
    }
    let digit: &str = match d {
        0 => "0",
        1 => "1",
        2 => "2",
        3 => "3",
        4 => "4",
        5 => "5",
        6 => "6",
        7 => "7",
        8 => "8",
        9 => "9",
        10 => "a",
        11 => "b",
        12 => "c",
        13 => "d",
        14 => "e",
        _ => "f",
    };
    s.append(digit);
    proof {
        assert(digit@ =~= seq![digit_char(d as nat)]);
        assert(s@ =~= old(s)@.push(digit_char(d as nat)));
    }
}

/// Appends a number in decimal.
fn push_decimal(s: &mut String, n: u64)
    ensures
        final(s)@ == old(s)@ + decimal(n as nat),
    decreases n,
{
    if n < 10 {
        push_digit(s, n as u8);
        proof {
            assert(s@ =~= old(s)@ + decimal(n as nat));
        }
    } else {
        push_decimal(s, n / 10);
        push_digit(s, (n % 10) as u8);
        proof {
            assert(s@ =~= old(s)@ + decimal(n as nat));
        }
    }
}

/// Appends bytes in base sixteen.
fn push_hex(s: &mut String, id: &[u8; 16])
    ensures
        final(s)@ == old(s)@ + hex(id@),
{
    let mut i: usize = 0;
    let ghost start = s@;
    proof {
        assert(s@ =~= start + hex(id@).take(0));
    }
    while i < 16
        invariant
            i <= 16,
            id@.len() == 16,
            s@ == start + hex(id@).take(2 * i),
        decreases 16 - i,
    {
        push_digit(s, id[i] / 16);
        push_digit(s, id[i] % 16);
        proof {
            let h = hex(id@);
            assert((2 * i) / 2 == i && (2 * i) % 2 == 0);
            assert((2 * i + 1) / 2 == i && (2 * i + 1) % 2 == 1);
            assert(s@ =~= start + h.take(2 * (i + 1)));
        }
        i = i + 1;
    }
    proof {
        assert(hex(id@).take(32) =~= hex(id@));
    }
}

/// The value of a digit in base sixteen, in either case.
pub open spec fn digit_value(c: char) -> Option<u8> {
    if '0' <= c && c <= '9' {
        Some((c as int - '0' as int) as u8)
    } else if 'a' <= c && c <= 'f' {
        Some((c as int - 'a' as int + 10) as u8)
    } else if 'A' <= c && c <= 'F' {
        Some((c as int - 'A' as int + 10) as u8)
    } else {
        None
    }
}

/// Whether the digits of a name for its byte `i` are those of `byte`.
pub open spec fn spells_byte(name: Seq<char>, i: int, byte: u8) -> bool {
    match (digit_value(name[2 * i]), digit_value(name[2 * i + 1])) {
        (Some(hi), Some(lo)) => byte == 16 * hi + lo,
        _ => false,
    }
}

/// Whether a name spells an id: two digits in base sixteen for each of its
/// bytes, and nothing else.
pub open spec fn spells(name: Seq<char>, id: Seq<u8>) -> bool {
    &&& name.len() == 2 * id.len()
    &&& forall|i: int| 0 <= i < id.len() ==> #[trigger] spells_byte(name, i, id[i])
}

fn parse_digit(c: char) -> (d: Option<u8>)
    ensures
        d == digit_value(c),
        d is Some ==> d->0 < 16,
{
    let n: u32 = c as u32;
    if '0' <= c && c <= '9' {
        Some((n - 48) as u8)
    } else if 'a' <= c && c <= 'f' {
        Some((n - 87) as u8)
    } else if 'A' <= c && c <= 'F' {
        Some((n - 55) as u8)
    } else {
        None
    }
}

/// Whether a name spells no id of a segment.
pub open spec fn spells_no_id(name: Seq<char>) -> bool {
    forall|id: Seq<u8>| id.len() == 16 ==> !#[trigger] spells(name, id)
}

/// The segment id that a file name spells, if it spells one.
pub fn parse_segment_id(name: &str) -> (r: Option<[u8; 16]>)
    ensures
        match r {
            Some(id) => spells(name@, id@),
            None => spells_no_id(name@),
        },
{
    if name.unicode_len() != 32 {
        return None;
    }
    let mut id: [u8; 16] = [0u8; 16];
    let mut i: usize = 0;
    while i < 16
        invariant
            i <= 16,
            name@.len() == 32,
            id@.len() == 16,
            forall|j: int| 0 <= j < i ==> #[trigger] spells_byte(name@, j, id@[j]),
        decreases 16 - i,
    {
        let hi: Option<u8> = parse_digit(name.get_char(2 * i));
        let lo: Option<u8> = parse_digit(name.get_char(2 * i + 1));
        match (hi, lo) {
            (Some(h), Some(l)) => {
                let ghost before = id@;
                id[i] = 16 * h + l;
                proof {
                    assert forall|j: int| 0 <= j < i + 1 implies #[trigger] spells_byte(
                        name@,
                        j,
                        id@[j],
                    ) by {
                        if j < i {
                            assert(spells_byte(name@, j, before[j]));
                        }
                    }
                }
            },
            _ => {
                proof {
                    assert forall|x: Seq<u8>| x.len() == 16 implies !#[trigger] spells(name@, x) by {
                        if spells(name@, x) {
                            assert(spells_byte(name@, i as int, x[i as int]));
                        }
                    }
                }
                return None;
            },
        }
        i = i + 1;
    }
    Some(id)
}

/// Where a published segment is.
pub fn live_path(segment_id: &[u8; 16]) -> (path: String)
    ensures
        path@ == "seg/"@ + hex(segment_id@),
{
    let mut path: String = String::from_str("seg/");
    push_hex(&mut path, segment_id);
    path
}

/// Where a segment is that was sealed and is not published yet.
pub fn staging_path(segment_id: &[u8; 16]) -> (path: String)
    ensures
        path@ == "seg/.staging/"@ + hex(segment_id@),
{
    let mut path: String = String::from_str("seg/.staging/");
    push_hex(&mut path, segment_id);
    path
}

/// Where a retired segment is parked: under its id and the commit that retired
/// it.
pub fn tombstone_path(segment_id: &[u8; 16], commit_id: u64) -> (path: String)
    ensures
        path@ == "seg/.tombstone/"@ + hex(segment_id@) + "."@ + decimal(commit_id as nat),
{
    let mut path: String = String::from_str("seg/.tombstone/");
    push_hex(&mut path, segment_id);
    path.append(".");
    push_decimal(&mut path, commit_id);
    path
}

/// Where a write transaction spills.
pub fn spill_path(txn_seq: u64) -> (path: String)
    ensures
        path@ == "tmp/scratch-"@ + decimal(txn_seq as nat),
{
    let mut path: String = String::from_str("tmp/scratch-");
    push_decimal(&mut path, txn_seq);
    path
}

/// Where a compaction builds its image.
pub fn compaction_path(main_db_path: &str) -> (path: String)
    ensures
        path@ == main_db_path@ + ".compact"@,
{
    let mut path: String = String::from_str(main_db_path);
    path.append(".compact");
    path
}

proof fn lemma_digit_char(a: nat, b: nat)
    requires
        a < 16,
        b < 16,
        digit_char(a) == digit_char(b),
    ensures
        a == b,
{
}

proof fn lemma_hex(a: Seq<u8>, b: Seq<u8>)
    requires
        hex(a) == hex(b),
    ensures
        a == b,
{
    assert(hex(a).len() == 2 * a.len());
    assert(hex(b).len() == 2 * b.len());
    assert forall|i: int| 0 <= i < a.len() implies a[i] == b[i] by {
        assert((2 * i) / 2 == i && (2 * i) % 2 == 0);
        assert((2 * i + 1) / 2 == i && (2 * i + 1) % 2 == 1);
        assert(hex(a)[2 * i] == digit_char((a[i] / 16) as nat));
        assert(hex(b)[2 * i] == digit_char((b[i] / 16) as nat));
        assert(hex(a)[2 * i + 1] == digit_char((a[i] % 16) as nat));
        assert(hex(b)[2 * i + 1] == digit_char((b[i] % 16) as nat));
        lemma_digit_char((a[i] / 16) as nat, (b[i] / 16) as nat);
        lemma_digit_char((a[i] % 16) as nat, (b[i] % 16) as nat);
    }
    assert(a =~= b);
}

proof fn lemma_decimal(a: nat, b: nat)
    requires
        decimal(a) == decimal(b),
    ensures
        a == b,
    decreases a,
{
    lemma_decimal_len(a);
    lemma_decimal_len(b);
    if a < 10 && b < 10 {
        assert(decimal(a)[0] == digit_char(a));
        assert(decimal(b)[0] == digit_char(b));
        lemma_digit_char(a, b);
    } else if a >= 10 && b >= 10 {
        assert(decimal(a).last() == digit_char(a % 10));
        assert(decimal(b).last() == digit_char(b % 10));
        lemma_digit_char(a % 10, b % 10);
        assert(decimal(a).drop_last() =~= decimal(a / 10));
        assert(decimal(b).drop_last() =~= decimal(b / 10));
        lemma_decimal(a / 10, b / 10);
    }
}

proof fn lemma_decimal_len(n: nat)
    ensures
        decimal(n).len() >= 1,
        n >= 10 ==> decimal(n).len() >= 2,
    decreases n,
{
    if n >= 10 {
        lemma_decimal_len(n / 10);
    }
}

/// The name that a segment's file has spells the segment's id, and no other.
pub proof fn law_segment_names_are_read_back(id: [u8; 16], other: [u8; 16])
    ensures
        spells(hex(id@), id@),
        spells(hex(id@), other@) ==> other == id,
{
    let name = hex(id@);
    assert forall|i: int| 0 <= i < 16 implies #[trigger] spells_byte(name, i, id@[i]) by {
        lemma_hex_byte(id@, i);
    }
    if spells(name, other@) {
        assert forall|i: int| 0 <= i < 16 implies other@[i] == id@[i] by {
            assert(spells_byte(name, i, id@[i]));
            assert(spells_byte(name, i, other@[i]));
        }
        assert(other =~= id);
    }
}

proof fn lemma_digit_value(d: nat)
    requires
        d < 16,
    ensures
        digit_value(digit_char(d)) == Some(d as u8),
{
}

proof fn lemma_hex_byte(bytes: Seq<u8>, i: int)
    requires
        0 <= i < bytes.len(),
    ensures
        spells_byte(hex(bytes), i, bytes[i]),
{
    assert((2 * i) / 2 == i && (2 * i) % 2 == 0);
    assert((2 * i + 1) / 2 == i && (2 * i + 1) % 2 == 1);
    lemma_digit_value((bytes[i] / 16) as nat);
    lemma_digit_value((bytes[i] % 16) as nat);
}

/// No two segments share a path.
pub proof fn law_segment_paths_are_distinct(a: [u8; 16], b: [u8; 16])
    requires
        "seg/"@ + hex(a@) == "seg/"@ + hex(b@) || "seg/.staging/"@ + hex(a@) == "seg/.staging/"@
            + hex(b@),
    ensures
        a == b,
{
    let p = if "seg/"@ + hex(a@) == "seg/"@ + hex(b@) {
        "seg/"@
    } else {
        "seg/.staging/"@
    };
    let x = p + hex(a@);
    let y = p + hex(b@);
    assert(x.skip(p.len() as int) =~= hex(a@));
    assert(y.skip(p.len() as int) =~= hex(b@));
    lemma_hex(a@, b@);
    assert(a =~= b);
}

/// No two retirements share a tombstone: a segment that is retired again by
/// another commit is parked elsewhere.
pub proof fn law_tombstone_paths_are_distinct(a: [u8; 16], ca: u64, b: [u8; 16], cb: u64)
    requires
        "seg/.tombstone/"@ + hex(a@) + "."@ + decimal(ca as nat) == "seg/.tombstone/"@ + hex(b@)
            + "."@ + decimal(cb as nat),
    ensures
        a == b,
        ca == cb,
{
    let p = "seg/.tombstone/"@;
    let dot = "."@;
    let x = p + hex(a@) + dot + decimal(ca as nat);
    let y = p + hex(b@) + dot + decimal(cb as nat);
    let n = p.len() as int;
    assert(hex(a@).len() == 32 && hex(b@).len() == 32);
    assert(x.subrange(n, n + 32) =~= hex(a@));
    assert(y.subrange(n, n + 32) =~= hex(b@));
    lemma_hex(a@, b@);
    assert(a =~= b);
    assert(x.skip(n + 32 + dot.len()) =~= decimal(ca as nat));
    assert(y.skip(n + 32 + dot.len()) =~= decimal(cb as nat));
    lemma_decimal(ca as nat, cb as nat);
}

/// No two write transactions of a handle spill to the same file.
pub proof fn law_spill_paths_are_distinct(a: u64, b: u64)
    requires
        "tmp/scratch-"@ + decimal(a as nat) == "tmp/scratch-"@ + decimal(b as nat),
    ensures
        a == b,
{
    let p = "tmp/scratch-"@;
    assert((p + decimal(a as nat)).skip(p.len() as int) =~= decimal(a as nat));
    assert((p + decimal(b as nat)).skip(p.len() as int) =~= decimal(b as nat));
    lemma_decimal(a as nat, b as nat);
}

} // verus!
