//! JPEG quantization tables.

use crate::double::is_off;
use crate::double::nearest;
use crate::double::round;
use crate::double::ONE;
use crate::order::before;
use crate::order::law_order_exists;
use crate::order::order_of;
use crate::order::stable_order;
use crate::select::lemma_which;
use crate::select::which;
use vstd::prelude::*;

verus! {

/// A quantization table: 64 divisors.
pub type Table = [u16; 64];

/// The values of a list of tables.
pub open spec fn tables(v: Seq<Table>) -> Seq<Seq<u16>> {
    Seq::new(v.len(), |i: int| v[i]@)
}

/// A marker that stands alone or is no marker at all: it has no segment.
pub open spec fn is_bare(marker: u8) -> bool {
    marker == 0x00 || marker == 0xFF || 0xD0 <= marker <= 0xD9
}

/// The 16-bit number in two bytes, high byte first.
pub open spec fn be16(hi: u8, lo: u8) -> int {
    hi as int * 256 + lo as int
}

/// The number of entries of a table that are there: eight-bit ones if `precision` is
/// zero, else sixteen-bit ones.
pub open spec fn entries_at(d: Seq<u8>, t: int, precision: int) -> int {
    let room = if precision == 0 {
        d.len() - t
    } else {
        (d.len() - t) / 2
    };
    if room < 0 {
        0
    } else if room < 64 {
        room
    } else {
        64
    }
}

/// The table whose entries begin at `t`. Entries past the end of the data are zero.
pub open spec fn table_at(d: Seq<u8>, t: int, precision: int) -> Seq<u16> {
    Seq::new(
        64,
        |k: int|
            if k >= entries_at(d, t, precision) {
                0u16
            } else if precision == 0 {
                d[t + k] as u16
            } else {
                be16(d[t + 2 * k], d[t + 2 * k + 1]) as u16
            },
    )
}

/// Where the table that begins at `t` ends.
pub open spec fn table_end(d: Seq<u8>, t: int, precision: int) -> int {
    if precision == 0 {
        t + entries_at(d, t, precision)
    } else {
        t + 2 * entries_at(d, t, precision)
    }
}

/// The tables of a segment from `t` to `end`: each is a byte whose upper half tells
/// the precision, and then its entries.
pub open spec fn segment_tables(d: Seq<u8>, t: int, end: int) -> Seq<Seq<u16>>
    decreases d.len() - t,
{
    if t >= end || t >= d.len() || t < 0 {
        Seq::empty()
    } else {
        let precision = d[t] as int / 16;
        seq![table_at(d, t + 1, precision)] + segment_tables(
            d,
            table_end(d, t + 1, precision),
            end,
        )
    }
}

/// The tables of a JPEG file from position `pos` on, up to its first scan.
pub open spec fn tables_from(d: Seq<u8>, pos: int) -> Seq<Seq<u16>>
    decreases d.len() - pos,
{
    if pos < 0 || pos + 4 >= d.len() {
        Seq::empty()
    } else if d[pos] != 0xFF {
        tables_from(d, pos + 1)
    } else if is_bare(d[pos + 1]) {
        tables_from(d, pos + 2)
    } else {
        let length = be16(d[pos + 2], d[pos + 3]);
        if length < 2 || pos + 2 + length > d.len() {
            Seq::empty()
        } else {
            let here = if d[pos + 1] == 0xDB {
                segment_tables(d, pos + 4, pos + 2 + length)
            } else {
                Seq::empty()
            };
            if d[pos + 1] == 0xDA {
                here
            } else {
                here + tables_from(d, pos + 2 + length)
            }
        }
    }
}

/// Reads the table whose entries begin at `t`, and tells where it ends.
fn read_table(data: &[u8], t: usize, precision: u8) -> (r: (Table, usize))
    requires
        t <= data.len(),
    ensures
        r.0@ == table_at(data@, t as int, precision as int),
        r.1 == table_end(data@, t as int, precision as int),
        t <= r.1 <= data.len(),
{
    let mut table: Table = [0u16;64];
    let mut at: usize = t;
    let mut k: usize = 0;
    let ghost n = entries_at(data@, t as int, precision as int);
    while k < 64 && at < data.len() && (precision == 0 || data.len() - at > 1)
        invariant
            k <= 64,
            k <= n <= 64,
            n == entries_at(data@, t as int, precision as int),
            at == (if precision == 0 {
                t + k
            } else {
                t + 2 * k
            }),
            at <= data.len(),
            forall|j: int|
                0 <= j < k ==> table@[j] == #[trigger] table_at(
                    data@,
                    t as int,
                    precision as int,
                )[j],
            forall|j: int| k <= j < 64 ==> table@[j] == 0,
        decreases 64 - k,
    {
        if precision == 0 {
            table[k] = data[at] as u16;
            at += 1;
        } else {
            table[k] = data[at] as u16 * 256 + data[at + 1] as u16;
            at += 2;
        }
        k += 1;
    }
    proof {
        assert(table@ =~= table_at(data@, t as int, precision as int));
    }
    (table, at)
}

proof fn lemma_nibble(b: u8)
    ensures
        (b >> 4u8) as int == b as int / 16,
{
    assert(b >> 4u8 == b / 16u8) by (bit_vector);
}

/// Reads the tables of a segment.
fn read_segment(data: &[u8], from: usize, end: usize) -> (r: Vec<Table>)
    requires
        end <= data.len(),
    ensures
        tables(r@) == segment_tables(data@, from as int, end as int),
{
    let mut r: Vec<Table> = Vec::new();
    let mut t: usize = from;
    proof {
        assert(tables(r@) + segment_tables(data@, from as int, end as int) =~= segment_tables(
            data@,
            from as int,
            end as int,
        ));
    }
    while t < end
        invariant
            end <= data.len(),
            tables(r@) + segment_tables(data@, t as int, end as int) == segment_tables(
                data@,
                from as int,
                end as int,
            ),
            t <= data.len() || t == from,
        decreases data.len() - t,
    {
        let precision: u8 = data[t] >> 4;
        proof {
            lemma_nibble(data@[t as int]);
        }
        let (table, next) = read_table(data, t + 1, precision);
        let ghost prev = r@;
        r.push(table);
        proof {
            assert(tables(r@) =~= tables(prev).push(table@));
            assert(tables(r@) + segment_tables(data@, next as int, end as int) =~= tables(prev)
                + segment_tables(data@, t as int, end as int));
        }
        t = next;
    }
    proof {
        assert(tables(r@) =~= tables(r@) + Seq::<Seq<u16>>::empty());
    }
    r
}

/// Parse JPEG DQT markers into quantization tables.
pub fn extract_quantization_tables(data: &[u8]) -> (r: Vec<Table>)
    ensures
        tables(r@) == tables_from(data@, 2),
{
    let mut r: Vec<Table> = Vec::new();
    let mut pos: usize = 2;
    proof {
        assert(tables(r@) + tables_from(data@, 2) =~= tables_from(data@, 2));
    }
    while pos < data.len() && data.len() - pos > 4
        invariant
            tables(r@) + tables_from(data@, pos as int) == tables_from(data@, 2),
        decreases data.len() - pos,
    {
        if data[pos] != 0xFF {
            pos += 1;
            continue ;
        }
        let marker: u8 = data[pos + 1];
        if marker == 0x00 || marker == 0xFF || (0xD0 <= marker && marker <= 0xD9) {
            pos += 2;
            continue ;
        }
        let length: usize = data[pos + 2] as usize * 256 + data[pos + 3] as usize;
        if length < 2 || data.len() - (pos + 2) < length {
            proof {
                assert(tables(r@) =~= tables(r@) + tables_from(data@, pos as int));
            }
            return r;
        }
        let ghost prev = r@;
        let ghost here = if marker == 0xDB {
            segment_tables(data@, pos + 4, pos + 2 + length)
        } else {
            Seq::empty()
        };
        if marker == 0xDB {
            let mut found = read_segment(data, pos + 4, pos + 2 + length);
            let ghost new = found@;
            r.append(&mut found);
            proof {
                assert(tables(r@) =~= tables(prev) + tables(new));
            }
        }
        proof {
            assert(tables(r@) =~= tables(prev) + here);
        }
        if marker == 0xDA {
            return r;
        }
        proof {
            assert(tables(prev) + here + tables_from(data@, pos + 2 + length) =~= tables(prev) + (
            here + tables_from(data@, pos + 2 + length)));
        }
        pos += 2 + length;
    }
    proof {
        assert(tables(r@) =~= tables(r@) + tables_from(data@, pos as int));
    }
    r
}

/// The payloads of a list of segments.
pub open spec fn payloads(v: Seq<Vec<u8>>) -> Seq<Seq<u8>> {
    Seq::new(v.len(), |i: int| v[i]@)
}

/// The payloads of the APP11 segments longer than ten bytes from position `pos` on, up to
/// the first scan.
pub open spec fn app11_from(d: Seq<u8>, pos: int) -> Seq<Seq<u8>>
    decreases d.len() - pos,
{
    if pos < 0 || pos + 4 >= d.len() {
        Seq::empty()
    } else if d[pos] != 0xFF {
        app11_from(d, pos + 1)
    } else if is_bare(d[pos + 1]) {
        app11_from(d, pos + 2)
    } else {
        let length = be16(d[pos + 2], d[pos + 3]);
        if length < 2 || pos + 2 + length > d.len() {
            Seq::empty()
        } else if d[pos + 1] == 0xDA {
            Seq::empty()
        } else if d[pos + 1] == 0xEB && length > 10 {
            seq![d.subrange(pos + 4, pos + 2 + length)] + app11_from(d, pos + 2 + length)
        } else {
            app11_from(d, pos + 2 + length)
        }
    }
}

/// Collects the payloads of the APP11 segments longer than ten bytes.
pub fn app11_payloads(data: &[u8]) -> (r: Vec<Vec<u8>>)
    ensures
        payloads(r@) == app11_from(data@, 2),
{
    let mut r: Vec<Vec<u8>> = Vec::new();
    let mut pos: usize = 2;
    assert(payloads(r@) + app11_from(data@, 2) =~= app11_from(data@, 2));
    while pos < data.len() && data.len() - pos > 4
        invariant
            payloads(r@) + app11_from(data@, pos as int) == app11_from(data@, 2),
        decreases data.len() - pos,
    {
        if data[pos] != 0xFF {
            pos += 1;
            continue ;
        }
        let marker: u8 = data[pos + 1];
        if marker == 0x00 || marker == 0xFF || (0xD0 <= marker && marker <= 0xD9) {
            pos += 2;
            continue ;
        }
        let length: usize = data[pos + 2] as usize * 256 + data[pos + 3] as usize;
        if length < 2 || data.len() - (pos + 2) < length || marker == 0xDA {
            assert(payloads(r@) =~= payloads(r@) + app11_from(data@, pos as int));
            return r;
        }
        if marker == 0xEB && length > 10 {
            let ghost before = r@;
            let payload = copy_range(data, pos + 4, pos + 2 + length);
            r.push(payload);
            proof {
                assert(payloads(r@) =~= payloads(before).push(payload@));
                assert(payloads(r@) + app11_from(data@, pos + 2 + length) =~= payloads(before)
                    + app11_from(data@, pos as int));
            }
        }
        pos += 2 + length;
    }
    assert(payloads(r@) =~= payloads(r@) + app11_from(data@, pos as int));
    r
}

/// Copies a part of the data.
pub fn copy_range(data: &[u8], from: usize, to: usize) -> (r: Vec<u8>)
    requires
        from <= to <= data@.len(),
    ensures
        r@ == data@.subrange(from as int, to as int),
{
    let mut r: Vec<u8> = Vec::new();
    let mut i: usize = from;
    while i < to
        invariant
            from <= i <= to <= data@.len(),
            r@ == data@.subrange(from as int, i as int),
        decreases to - i,
    {
        r.push(data[i]);
        i += 1;
        assert(r@ =~= data@.subrange(from as int, i as int));
    }
    r
}

/// The entries of the standard luminance table (Annex K).
pub open spec fn standard_luma() -> Seq<u16> {
    seq![
        16, 11, 10, 16, 24, 40, 51, 61, 12, 12, 14, 19, 26, 58, 60, 55, 14, 13, 16, 24, 40, 57, 69, 56,
        14, 17, 22, 29, 51, 87, 80, 62, 18, 22, 37, 56, 68, 109, 103, 77, 24, 35, 55, 64, 81, 104, 113,
        92, 49, 64, 78, 87, 103, 121, 120, 101, 72, 92, 95, 98, 112, 100, 103, 99,
    ]
}

/// The standard luminance table (Annex K).
pub fn standard_table() -> (r: Table)
    ensures
        r@ == standard_luma(),
        forall|k: int| 0 <= k < 64 ==> 10 <= #[trigger] r@[k] <= 121,
{
    let r: Table = [
        16, 11, 10, 16, 24, 40, 51, 61, 12, 12, 14, 19, 26, 58, 60, 55, 14, 13, 16, 24, 40, 57, 69, 56,
        14, 17, 22, 29, 51, 87, 80, 62, 18, 22, 37, 56, 68, 109, 103, 77, 24, 35, 55, 64, 81, 104, 113,
        92, 49, 64, 78, 87, 103, 121, 120, 101, 72, 92, 95, 98, 112, 100, 103, 99,
    ];
    proof {
        assert(r@ =~= standard_luma());
    }
    r
}

/// The ratio of a table's entry to the entry of the standard table.
#[derive(Debug, Clone, Copy, PartialEq, Eq, Structural)]
pub struct Ratio {
    pub num: u16,
    pub den: u16,
}

/// The ratios of the first `n` entries that are not zero.
pub open spec fn ratios(table: Seq<u16>, n: nat) -> Seq<Ratio>
    decreases n,
{
    if n == 0 {
        Seq::empty()
    } else if table[n - 1] > 0 {
        ratios(table, (n - 1) as nat).push(
            Ratio { num: table[n - 1], den: standard_luma()[n - 1] },
        )
    } else {
        ratios(table, (n - 1) as nat)
    }
}

/// An integer that orders ratios by their values.
pub open spec fn ratio_key(r: Ratio) -> u128 {
    (r.num as int * 0x10_0000 / r.den as int) as u128
}

/// The keys of ratios order them by their values, as long as the denominators are
/// those of the standard table.
pub proof fn law_ratio_key_orders(a: Ratio, b: Ratio)
    requires
        10 <= a.den <= 121,
        10 <= b.den <= 121,
    ensures
        ratio_key(a) <= ratio_key(b) <==> a.num * b.den <= b.num * a.den,
{
    let p = a.num as int;
    let q = a.den as int;
    let u = b.num as int;
    let v = b.den as int;
    let x = p * 0x10_0000 / q;
    let y = u * 0x10_0000 / v;
    assert(x * q <= p * 0x10_0000 < (x + 1) * q) by (nonlinear_arith)
        requires
            x == p * 0x10_0000 / q,
            q > 0,
    ;
    assert(y * v <= u * 0x10_0000 < (y + 1) * v) by (nonlinear_arith)
        requires
            y == u * 0x10_0000 / v,
            v > 0,
    ;
    assert(0 <= x <= 0xFFFF * 0x10_0000) by (nonlinear_arith)
        requires
            x * q <= p * 0x10_0000 < (x + 1) * q,
            0 <= p <= 0xFFFF,
            q >= 1,
    ;
    assert(0 <= y <= 0xFFFF * 0x10_0000) by (nonlinear_arith)
        requires
            y * v <= u * 0x10_0000 < (y + 1) * v,
            0 <= u <= 0xFFFF,
            v >= 1,
    ;
    if p * v <= u * q {
        assert(x <= y) by (nonlinear_arith)
            requires
                p * v <= u * q,
                x * q <= p * 0x10_0000,
                u * 0x10_0000 < (y + 1) * v,
                q > 0,
                v > 0,
        ;
    } else {
        assert(x > y) by (nonlinear_arith)
            requires
                p * v >= u * q + 1,
                p * 0x10_0000 < (x + 1) * q,
                y * v <= u * 0x10_0000,
                0 < q <= 121,
                0 < v <= 121,
        ;
    }
}

/// Ordering keys of ratios.
pub open spec fn ratio_keys(r: Seq<Ratio>) -> Seq<u128> {
    Seq::new(r.len(), |i: int| ratio_key(r[i]))
}

/// The ratios of a table in ascending order.
pub open spec fn ascending_ratios(table: Seq<u16>) -> Seq<Ratio> {
    let r = ratios(table, 64);
    Seq::new(r.len(), |i: int| r[order_of(ratio_keys(r))[i] as int])
}

/// The ratios of a table to the standard table, in ascending order. Entries that are
/// zero are left out.
pub fn sorted_ratios(table: &Table) -> (r: Vec<Ratio>)
    ensures
        r@ == ascending_ratios(table@),
        r.len() <= 64,
        forall|i: int| 0 <= i < r.len() ==> (#[trigger] r@[i]).num > 0 && r@[i].den > 0,
{
    let std: Table = standard_table();
    let mut all: Vec<Ratio> = Vec::new();
    let mut keys: Vec<u128> = Vec::new();
    let mut i: usize = 0;
    while i < 64
        invariant
            i <= 64,
            std@ == standard_luma(),
            forall|k: int| 0 <= k < 64 ==> 10 <= #[trigger] std@[k] <= 121,
            all@ == ratios(table@, i as nat),
            all.len() <= i,
            keys@ =~= ratio_keys(all@),
            forall|k: int| 0 <= k < all.len() ==> (#[trigger] all@[k]).num > 0 && all@[k].den > 0,
        decreases 64 - i,
    {
        if table[i] > 0 {
            let r = Ratio { num: table[i], den: std[i] };
            keys.push((r.num as u64 * 0x10_0000 / r.den as u64) as u128);
            all.push(r);
        }
        i += 1;
    }
    let order = stable_order(&keys);
    let mut r: Vec<Ratio> = Vec::new();
    let mut k: usize = 0;
    while k < order.len()
        invariant
            k <= order.len(),
            order.len() == all.len(),
            all@ == ratios(table@, 64),
            order@ == order_of(ratio_keys(all@)),
            forall|j: int| 0 <= j < order.len() ==> #[trigger] order@[j] < all.len(),
            forall|j: int| 0 <= j < all.len() ==> (#[trigger] all@[j]).num > 0 && all@[j].den > 0,
            r@ =~= ascending_ratios(table@).take(k as int),
            forall|j: int| 0 <= j < r.len() ==> (#[trigger] r@[j]).num > 0 && r@[j].den > 0,
        decreases order.len() - k,
    {
        r.push(all[order[k]]);
        k += 1;
    }
    proof {
        assert(r@ =~= ascending_ratios(table@));
    }
    r
}

/// The ratio in the middle of a table's ratios, if it has any.
pub open spec fn middle_ratio(table: Seq<u16>) -> Option<Ratio> {
    let r = ascending_ratios(table);
    if r.len() == 0 {
        None
    } else {
        Some(r[r.len() as int / 2])
    }
}

/// The ratio of the first quantization table of a JPEG file to the standard table: the
/// one in the middle. Nothing where the data is no JPEG file or has no such table.
pub open spec fn quality_ratio(d: Seq<u8>) -> Option<Ratio> {
    let t = tables_from(d, 2);
    if d.len() < 2 || d[0] != 0xFF || d[1] != 0xD8 || t.len() == 0 {
        None
    } else {
        middle_ratio(t[0])
    }
}

/// A quality, kept between 1 and 100.
pub open spec fn clamped_quality(q: nat) -> u8 {
    if q < 1 {
        1
    } else if q > 100 {
        100
    } else {
        q as u8
    }
}

/// The quality that a table is scaled for by a ratio: 50 over the ratio where the ratio is
/// below one, else 50 times what the ratio leaves of two, rounded to an integer.
pub open spec fn quality_for(r: Ratio) -> u8 {
    let v = nearest((r.num * ONE) as nat, r.den as nat);
    if v < ONE {
        let x = nearest(50 * 0x1_0000_0000_0000_0000_0000_0000_0000nat, v);
        clamped_quality((x + 0x8000_0000_0000) / 0x1_0000_0000_0000)
    } else if v < 2 * ONE {
        let x = nearest((50 * (2 * ONE - v)) as nat, 1);
        clamped_quality((x + 0x8000_0000_0000_0000) / (ONE as nat))
    } else {
        1
    }
}

/// The quality that a table is scaled for by a ratio.
pub fn quality_of(r: Ratio) -> (q: u8)
    requires
        r.num > 0,
        r.den > 0,
    ensures
        q == quality_for(r),
{
    let n: u128 = r.num as u128 * ONE;
    let v = round(n, r.den as u128);
    proof {
        let e = choose|e: int| is_off(n as int, r.den as int, v as int, e);
        assert(is_off(n as int, r.den as int, v as int, e));
        assert(v > 0) by (nonlinear_arith)
            requires
                v * r.den > n - e,
                n - e >= 0,
                r.den > 0,
        ;
    }
    let x: u128 = if v < ONE {
        (round(50 * 0x1_0000_0000_0000_0000_0000_0000_0000, v) + 0x8000_0000_0000)
            / 0x1_0000_0000_0000
    } else if v < 2 * ONE {
        (round(50 * (2 * ONE - v), 1) + 0x8000_0000_0000_0000) / ONE
    } else {
        0
    };
    if x < 1 {
        1
    } else if x > 100 {
        100
    } else {
        x as u8
    }
}

/// The quality of a JPEG file as far as its first quantization table tells.
pub open spec fn estimated_quality(d: Seq<u8>) -> Option<u8> {
    match quality_ratio(d) {
        Some(r) => Some(quality_for(r)),
        None => None,
    }
}

/// Estimates the JPEG quality factor from the first quantization table.
pub fn estimate_jpeg_quality(raw_bytes: &[u8]) -> (r: Option<u8>)
    ensures
        r == estimated_quality(raw_bytes@),
{
    if raw_bytes.len() < 2 || raw_bytes[0] != 0xFF || raw_bytes[1] != 0xD8 {
        return None;
    }
    let found = extract_quantization_tables(raw_bytes);
    if found.len() == 0 {
        return None;
    }
    let sorted = sorted_ratios(&found[0]);
    proof {
        assert(tables(found@)[0] == found@[0]@);
    }
    if sorted.len() == 0 {
        None
    } else {
        Some(quality_of(sorted[sorted.len() / 2]))
    }
}

/// An entry of a table is a byte, or two with the high one first where the precision is not
/// zero; entries that the data does not hold are zero.
pub proof fn law_table_entries(d: Seq<u8>, t: int, precision: int, k: int)
    requires
        0 <= t,
        0 <= k < 64,
    ensures
        table_at(d, t, precision).len() == 64,
        precision == 0 ==> table_at(d, t, precision)[k] == if t + k < d.len() {
            d[t + k] as int
        } else {
            0
        },
        precision != 0 ==> table_at(d, t, precision)[k] == if t + 2 * k + 1 < d.len() {
            256 * d[t + 2 * k] + d[t + 2 * k + 1]
        } else {
            0
        },
{
}

/// A table takes 64 bytes, or 128 where the precision is not zero, as far as the data goes.
pub proof fn law_table_length(d: Seq<u8>, t: int, precision: int)
    requires
        0 <= t <= d.len(),
    ensures
        t + 64 <= d.len() && precision == 0 ==> table_end(d, t, precision) == t + 64,
        t + 128 <= d.len() && precision != 0 ==> table_end(d, t, precision) == t + 128,
        t <= table_end(d, t, precision) <= d.len(),
{
}

/// A segment of whole tables holds one for each, read one after the other: the precision is
/// the high half of the byte in front.
pub proof fn law_segment(d: Seq<u8>, t: int, end: int)
    requires
        0 <= t < end <= d.len(),
        d[t] < 16 ==> t + 65 <= d.len(),
        d[t] >= 16 ==> t + 129 <= d.len(),
    ensures
        ({
            let size = if d[t] < 16 {
                65int
            } else {
                129
            };
            &&& segment_tables(d, t, end).len() == 1 + segment_tables(d, t + size, end).len()
            &&& segment_tables(d, t, end)[0] == table_at(
                d,
                t + 1,
                if d[t] < 16 {
                    0
                } else {
                    1
                },
            )
            &&& segment_tables(d, t, end).skip(1) == segment_tables(d, t + size, end)
        }),
        segment_tables(d, end, end).len() == 0,
{
    let precision = d[t] as int / 16;
    assert(precision == 0 <==> d[t] < 16);
    let at = table_at(d, t + 1, precision);
    assert(at =~= table_at(
        d,
        t + 1,
        if d[t] < 16 {
            0
        } else {
            1
        },
    ));
    let rest = segment_tables(d, table_end(d, t + 1, precision), end);
    assert((seq![at] + rest).skip(1) =~= rest);
}

/// The walk over the segments: a byte that begins no marker is passed over, a marker without a
/// length too; any other segment is read as long as it says, and the scan ends the walk.
pub proof fn law_walk(d: Seq<u8>, pos: int)
    requires
        0 <= pos,
        pos + 5 <= d.len(),
    ensures
        ({
            let length = 256 * d[pos + 2] + d[pos + 3];
            let m = d[pos + 1];
            let bare = m == 0 || m == 0xFF || (m >= 0xD0 && m < 0xDA);
            let fits = length >= 2 && pos + length + 2 <= d.len();
            let next = tables_from(d, pos + length + 2);
            let next11 = app11_from(d, pos + length + 2);
            &&& d[pos] != 0xFF ==> tables_from(d, pos) == tables_from(d, pos + 1) && app11_from(
                d,
                pos,
            ) == app11_from(d, pos + 1)
            &&& d[pos] == 0xFF && bare ==> tables_from(d, pos) == tables_from(d, pos + 2)
                && app11_from(d, pos) == app11_from(d, pos + 2)
            &&& d[pos] == 0xFF && !bare && !fits ==> tables_from(d, pos).len() == 0 && app11_from(
                d,
                pos,
            ).len() == 0
            &&& d[pos] == 0xFF && !bare && fits && m == 0xDB ==> tables_from(d, pos)
                == segment_tables(d, pos + 4, pos + length + 2) + next && app11_from(d, pos) == next11
            &&& d[pos] == 0xFF && !bare && fits && m == 0xDA ==> tables_from(d, pos).len() == 0
                && app11_from(d, pos).len() == 0
            &&& d[pos] == 0xFF && !bare && fits && m == 0xEB && length >= 11 ==> app11_from(d, pos)
                == seq![d.subrange(pos + 4, pos + length + 2)] + next11
            &&& d[pos] == 0xFF && !bare && fits && m == 0xEB && length < 11 ==> app11_from(d, pos)
                == next11
            &&& d[pos] == 0xFF && !bare && fits && m != 0xDB && m != 0xDA ==> tables_from(d, pos)
                == next
            &&& d[pos] == 0xFF && !bare && fits && m != 0xDA && m != 0xEB ==> app11_from(d, pos)
                == next11
        }),
        pos + 5 == d.len() ==> tables_from(d, pos + 1).len() == 0 && app11_from(d, pos + 1).len()
            == 0,
{
    let length = be16(d[pos + 2], d[pos + 3]);
    assert(pos + 2 + length == pos + length + 2);
    assert(Seq::<Seq<u16>>::empty() + tables_from(d, pos + 2 + length) =~= tables_from(
        d,
        pos + 2 + length,
    ));
}

/// Each step that is not zero is held against the standard one at its place.
pub proof fn law_ratios(table: Seq<u16>, n: nat)
    requires
        n <= table.len(),
    ensures
        ratios(table, n) == which(n, |i: int| table[i] != 0).map_values(|i: int| Ratio { num: table[i], den: standard_luma()[i] }),
    decreases n,
{
    let p = |i: int| table[i] != 0;
    let f = |i: int| Ratio { num: table[i], den: standard_luma()[i] };
    lemma_which(0, p);
    if n > 0 {
        let lower = (n - 1) as nat;
        law_ratios(table, lower);
        lemma_which(lower, p);
        assert(which(n, p).map_values(f) =~= if p(lower as int) {
            which(lower, p).map_values(f).push(f(lower as int))
        } else {
            which(lower, p).map_values(f)
        });
    } else {
        assert(which(0, p).map_values(f) =~= Seq::<Ratio>::empty());
    }
}

/// The ratios are put in ascending order, to six binary digits and fourteen more, and the
/// middle one is taken, the later of two.
pub proof fn law_middle_ratio(table: Seq<u16>, i: int, j: int)
    requires
        table.len() == 64,
        0 <= i < j < ratios(table, 64).len(),
    ensures
        ({
            let r = ratios(table, 64);
            let a = ascending_ratios(table);
            &&& a.len() == r.len()
            &&& r.contains(a[i])
            &&& a[i].num * 1_048_576 / a[i].den as int <= a[j].num * 1_048_576 / a[j].den as int
            &&& middle_ratio(table) == Some(
                a[if r.len() % 2 == 0 {
                    r.len() as int / 2
                } else {
                    (r.len() - 1) / 2
                }],
            )
        }),
{
    let r = ratios(table, 64);
    lemma_ratio_bound(table, 64);
    let keys = ratio_keys(r);
    law_order_exists(keys);
    let o = order_of(keys);
    assert(before(keys, o[i] as int, o[j] as int));
    assert(r.contains(r[o[i] as int]));
    let (x, y) = (r[o[i] as int], r[o[j] as int]);
    assert(0 <= x.num as int * 0x10_0000 / x.den as int <= x.num as int * 0x10_0000)
        by (nonlinear_arith)
        requires
            x.num >= 0,
            x.den >= 1,
    ;
    assert(0 <= y.num as int * 0x10_0000 / y.den as int <= y.num as int * 0x10_0000)
        by (nonlinear_arith)
        requires
            y.num >= 0,
            y.den >= 1,
    ;
}

proof fn lemma_ratio_bound(table: Seq<u16>, n: nat)
    requires
        n <= 64,
    ensures
        ratios(table, n).len() <= n,
        forall|k: int| 0 <= k < ratios(table, n).len() ==> (#[trigger] ratios(table, n)[k]).den >= 1,
    decreases n,
{
    if n > 0 {
        lemma_ratio_bound(table, (n - 1) as nat);
        let before = ratios(table, (n - 1) as nat);
        let all = ratios(table, n);
        assert forall|k: int| 0 <= k < all.len() implies (#[trigger] all[k]).den >= 1 by {
            if k < before.len() {
                assert(all[k] == before[k]);
            }
        }
    }
}

/// A quality lies between one and a hundred, and is one where a step is twice the standard
/// step or more.
pub proof fn law_quality_range(r: Ratio)
    ensures
        1 <= quality_for(r) <= 100,
{
}

/// A quality is told of a file that begins as a JPEG and has a table, by its first table.
pub proof fn law_quality_of_file(d: Seq<u8>)
    ensures
        estimated_quality(d) is Some ==> d.len() >= 2 && d[0] == 255 && d[1] == 216 && tables_from(
            d,
            2,
        ).len() > 0,
        d.len() >= 2 && d[0] == 255 && d[1] == 216 && tables_from(d, 2).len() > 0 && middle_ratio(
            tables_from(d, 2)[0],
        ) is Some ==> estimated_quality(d) == Some(
            quality_for(middle_ratio(tables_from(d, 2)[0])->Some_0),
        ),
{
}

} // verus!
