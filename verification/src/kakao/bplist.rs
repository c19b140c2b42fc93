//! Reads a binary property list (`bplist00`) whose root is an array of integers.
//!
//! KakaoTalk stores the member ids of a room in this form. A blob is the header,
//! the objects, a table with the offset of each object, and a 32-byte trailer.
//! Whatever departs from that layout is no data: the reader gives `None`. It
//! reads every offset only after it has checked that it lies inside the blob,
//! and refuses an array of more than 256 elements.

use vstd::prelude::*;

verus! {

/// Length of the header `bplist00`.
pub const HEADER_LEN: usize = 8;

/// Length of the trailer.
pub const TRAILER_LEN: usize = 32;

/// The longest array that is read.
pub const MAX_ELEMENTS: usize = 256;

/// The number that `bytes` denote, most significant byte first.
pub open spec fn be_value(bytes: Seq<u8>) -> nat
    decreases bytes.len(),
{
    if bytes.len() == 0 {
        0
    } else {
        be_value(bytes.drop_last()) * 256 + bytes.last() as nat
    }
}

/// The number in the `width` bytes of `blob` that start at `from`.
pub open spec fn be_at(blob: Seq<u8>, from: int, width: int) -> nat {
    be_value(blob.subrange(from, from + width))
}

/// What the trailer says about the layout of a blob.
#[derive(Debug)]
pub struct Layout {
    /// Bytes per entry of the offset table.
    pub offset_size: u64,
    /// Bytes per reference to an object.
    pub ref_size: u64,
    /// Number of objects.
    pub objects: u64,
    /// Index of the root object.
    pub top: u64,
    /// Where the offset table starts, which is where the objects end.
    pub table: u64,
}

/// Whether `blob` starts with the header and is long enough for a trailer.
pub open spec fn framed(blob: Seq<u8>) -> bool {
    &&& blob.len() >= HEADER_LEN + TRAILER_LEN
    &&& blob.take(HEADER_LEN as int) == seq![0x62u8, 0x70, 0x6c, 0x69, 0x73, 0x74, 0x30, 0x30]
}

/// Whether `layout` holds what the trailer of `blob` says.
pub open spec fn describes(layout: Layout, blob: Seq<u8>) -> bool {
    let t = blob.len() - TRAILER_LEN;
    &&& layout.offset_size == blob[t + 6]
    &&& layout.ref_size == blob[t + 7]
    &&& layout.objects == be_at(blob, t + 8, 8)
    &&& layout.top == be_at(blob, t + 16, 8)
    &&& layout.table == be_at(blob, t + 24, 8)
}

/// Whether the layout is possible: sizes of one to eight bytes, a root that
/// exists, and an offset table between the header and the trailer.
pub open spec fn consistent(layout: Layout, blob: Seq<u8>) -> bool {
    &&& 1 <= layout.offset_size <= 8
    &&& 1 <= layout.ref_size <= 8
    &&& layout.top < layout.objects
    &&& HEADER_LEN <= layout.table
    &&& layout.table + layout.objects * layout.offset_size <= blob.len() - TRAILER_LEN
}

/// Where object `idx` starts, where that lies among the objects.
pub open spec fn object_offset(blob: Seq<u8>, layout: Layout, idx: int) -> Option<int> {
    let off = be_at(
        blob,
        layout.table + idx * layout.offset_size,
        layout.offset_size as int,
    ) as int;
    if HEADER_LEN <= off < layout.table {
        Some(off)
    } else {
        None
    }
}

/// The number of bytes of an integer object whose marker has low nibble `power`.
pub open spec fn int_width(power: int) -> int {
    if power == 0 {
        1
    } else if power == 1 {
        2
    } else if power == 2 {
        4
    } else {
        8
    }
}

/// The integer object at `offset`: a marker of `0x10` to `0x13` and the value's bytes.
pub open spec fn int_object(blob: Seq<u8>, offset: int) -> Option<nat> {
    if offset >= blob.len() || blob[offset] / 16 != 1 || blob[offset] % 16 > 3 {
        None
    } else {
        let width = int_width((blob[offset] % 16) as int);
        if offset + 1 + width > blob.len() {
            None
        } else {
            Some(be_at(blob, offset + 1, width))
        }
    }
}

/// The integer object at `offset`, where it fits a signed 64-bit value.
pub open spec fn signed_object(blob: Seq<u8>, offset: int) -> Option<int> {
    match int_object(blob, offset) {
        Some(v) => if v <= i64::MAX {
            Some(v as int)
        } else {
            None
        },
        None => None,
    }
}

/// Element count of the array at `offset`, and where its references start: the
/// low nibble of the marker, or the integer object behind it where that is 15.
pub open spec fn counted(blob: Seq<u8>, offset: int) -> Option<(nat, int)> {
    let nibble = blob[offset] % 16;
    if nibble != 15 {
        Some((nibble as nat, offset + 1))
    } else {
        match int_object(blob, offset + 1) {
            Some(v) => Some((v, offset + 2 + int_width((blob[offset + 1] % 16) as int))),
            None => None,
        }
    }
}

/// The integer that the reference at `cursor` leads to.
pub open spec fn element(blob: Seq<u8>, layout: Layout, cursor: int) -> Option<int> {
    if cursor + layout.ref_size > layout.table {
        None
    } else {
        let idx = be_at(blob, cursor, layout.ref_size as int) as int;
        if idx >= layout.objects {
            None
        } else {
            match object_offset(blob, layout, idx) {
                Some(offset) => signed_object(blob, offset),
                None => None,
            }
        }
    }
}

/// The integers that the `count` references from `cursor` on lead to.
pub open spec fn elements(blob: Seq<u8>, layout: Layout, cursor: int, count: nat) -> Option<
    Seq<int>,
>
    decreases count,
{
    if count == 0 {
        Some(seq![])
    } else {
        let n = (count - 1) as nat;
        match (
            elements(blob, layout, cursor, n),
            element(blob, layout, cursor + n * layout.ref_size),
        ) {
            (Some(front), Some(last)) => Some(front.push(last)),
            _ => None,
        }
    }
}

/// The integers of a blob with the given layout.
pub open spec fn root_array(blob: Seq<u8>, layout: Layout) -> Option<Seq<int>> {
    match object_offset(blob, layout, layout.top as int) {
        None => None,
        Some(root) => if blob[root] / 16 != 10 {
            None
        } else {
            match counted(blob, root) {
                None => None,
                Some((count, cursor)) => if count > MAX_ELEMENTS {
                    None
                } else {
                    elements(blob, layout, cursor, count)
                },
            }
        },
    }
}

/// The integers of the root array of `blob`, where it is a well-formed list of them.
pub open spec fn int_array_of(blob: Seq<u8>) -> Option<Seq<int>> {
    if framed(blob) {
        let t = blob.len() - TRAILER_LEN;
        let layout = Layout {
            offset_size: blob[t + 6] as u64,
            ref_size: blob[t + 7] as u64,
            objects: be_at(blob, t + 8, 8) as u64,
            top: be_at(blob, t + 16, 8) as u64,
            table: be_at(blob, t + 24, 8) as u64,
        };
        if consistent(layout, blob) {
            root_array(blob, layout)
        } else {
            None
        }
    } else {
        None
    }
}

/// Eight bytes denote a number below 2^64, and fewer a smaller one.
proof fn lemma_be_bound(bytes: Seq<u8>)
    requires
        bytes.len() <= 8,
    ensures
        be_value(bytes) <= u64::MAX,
        bytes.len() == 7 ==> be_value(bytes) <= 0xff_ffff_ffff_ffff,
        bytes.len() == 6 ==> be_value(bytes) <= 0xffff_ffff_ffff,
        bytes.len() == 5 ==> be_value(bytes) <= 0xff_ffff_ffff,
        bytes.len() == 4 ==> be_value(bytes) <= 0xffff_ffff,
        bytes.len() == 3 ==> be_value(bytes) <= 0xff_ffff,
        bytes.len() == 2 ==> be_value(bytes) <= 0xffff,
        bytes.len() == 1 ==> be_value(bytes) <= 0xff,
        bytes.len() == 0 ==> be_value(bytes) == 0,
    decreases bytes.len(),
{
    if bytes.len() > 0 {
        lemma_be_bound(bytes.drop_last());
    }
}

/// Reads the `width` bytes from `from` on as a number.
fn be_uint(blob: &[u8], from: usize, width: usize) -> (v: u64)
    requires
        from + width <= blob@.len(),
        width <= 8,
    ensures
        v == be_at(blob@, from as int, width as int),
{
    let total: usize = blob.len();
    let mut v: u64 = 0;
    let ghost bytes = blob@.subrange(from as int, from + width);
    for i in 0..width
        invariant
            from + width <= total == blob@.len(),
            width <= 8,
            bytes == blob@.subrange(from as int, from + width),
            v == be_value(bytes.take(i as int)),
    {
        proof {
            assert(bytes.take(i + 1).drop_last() == bytes.take(i as int));
            lemma_be_bound(bytes.take(i + 1));
        }
        v = v * 256 + blob[from + i] as u64;
    }
    proof {
        assert(bytes.take(width as int) == bytes);
    }
    v
}

/// Reads the trailer of a framed blob.
fn read_layout(blob: &[u8]) -> (layout: Layout)
    requires
        framed(blob@),
    ensures
        describes(layout, blob@),
{
    let t: usize = blob.len() - TRAILER_LEN;
    Layout {
        offset_size: blob[t + 6] as u64,
        ref_size: blob[t + 7] as u64,
        objects: be_uint(blob, t + 8, 8),
        top: be_uint(blob, t + 16, 8),
        table: be_uint(blob, t + 24, 8),
    }
}

/// Whether the offset table that the layout speaks of lies between header and trailer.
fn check_layout(blob: &[u8], layout: &Layout) -> (r: bool)
    requires
        framed(blob@),
    ensures
        r == consistent(*layout, blob@),
{
    let content_end: u64 = (blob.len() - TRAILER_LEN) as u64;
    if layout.offset_size < 1 || layout.offset_size > 8 || layout.ref_size < 1 || layout.ref_size
        > 8 || layout.top >= layout.objects || layout.table < HEADER_LEN as u64 || layout.table
        > content_end {
        proof {
            assert(layout.objects * layout.offset_size >= 0) by (nonlinear_arith);
        }
        return false;
    }
    let room: u64 = content_end - layout.table;
    proof {
        let n = layout.objects as int;
        let s = layout.offset_size as int;
        let q = room as int / s;
        assert((n <= q) == (n * s <= room)) by (nonlinear_arith)
            requires
                q == room as int / s,
                s >= 1,
                n >= 0,
        ;
    }
    layout.objects <= room / layout.offset_size
}

/// Where object `idx` starts, where that lies among the objects.
fn offset_of(blob: &[u8], layout: &Layout, idx: u64) -> (r: Option<usize>)
    requires
        framed(blob@),
        consistent(*layout, blob@),
        idx < layout.objects,
    ensures
        match r {
            Some(off) => object_offset(blob@, *layout, idx as int) == Some(off as int) && off
                < blob@.len(),
            None => object_offset(blob@, *layout, idx as int) is None,
        },
{
    let total: usize = blob.len();
    let entry: u64;
    proof {
        assert(idx * layout.offset_size + layout.offset_size <= layout.objects * layout.offset_size)
            by (nonlinear_arith)
            requires
                idx < layout.objects,
                layout.offset_size >= 1,
        ;
        assert(idx * layout.offset_size >= 0) by (nonlinear_arith);
    }
    entry = layout.table + idx * layout.offset_size;
    let off: u64 = be_uint(blob, entry as usize, layout.offset_size as usize);
    if off >= HEADER_LEN as u64 && off < layout.table {
        Some(off as usize)
    } else {
        None
    }
}

/// Reads the integer object at `offset`.
fn read_uint(blob: &[u8], offset: usize) -> (r: Option<u64>)
    ensures
        match r {
            Some(v) => int_object(blob@, offset as int) == Some(v as nat),
            None => int_object(blob@, offset as int) is None,
        },
{
    if offset >= blob.len() {
        return None;
    }
    let marker: u8 = blob[offset];
    if marker / 16 != 1 || marker % 16 > 3 {
        return None;
    }
    let width: usize = width_of(marker % 16);
    if blob.len() - offset < 1 + width {
        return None;
    }
    Some(be_uint(blob, offset + 1, width))
}

/// Exec form of [`int_width`].
fn width_of(power: u8) -> (width: usize)
    requires
        power <= 3,
    ensures
        width == int_width(power as int),
        1 <= width <= 8,
{
    if power == 0 {
        1
    } else if power == 1 {
        2
    } else if power == 2 {
        4
    } else {
        8
    }
}

/// Reads the integer object at `offset`, refusing one that no signed value holds.
fn read_int(blob: &[u8], offset: usize) -> (r: Option<i64>)
    ensures
        match r {
            Some(v) => signed_object(blob@, offset as int) == Some(v as int),
            None => signed_object(blob@, offset as int) is None,
        },
{
    match read_uint(blob, offset) {
        Some(v) => if v <= 9223372036854775807 {
            Some(v as i64)
        } else {
            None
        },
        None => None,
    }
}

/// Reads the element count of the array at `offset`.
fn collection_count(blob: &[u8], offset: usize) -> (r: Option<(u64, usize)>)
    requires
        offset < blob@.len(),
    ensures
        match r {
            Some((count, cursor)) => counted(blob@, offset as int) == Some(
                (count as nat, cursor as int),
            ) && cursor <= blob@.len(),
            None => counted(blob@, offset as int) is None,
        },
{
    let total: usize = blob.len();
    let nibble: u8 = blob[offset] % 16;
    if nibble != 15 {
        return Some((nibble as u64, offset + 1));
    }
    match read_uint(blob, offset + 1) {
        Some(v) => {
            let width: usize = width_of(blob[offset + 1] % 16);
            Some((v, offset + 2 + width))
        },
        None => None,
    }
}

/// Parses a blob whose root object is an array of integers, giving the values in order.
pub fn int_array(blob: &[u8]) -> (r: Option<Vec<i64>>)
    ensures
        match r {
            Some(values) => int_array_of(blob@) == Some(values@.map_values(|v: i64| v as int)),
            None => int_array_of(blob@) is None,
        },
{
    if !is_framed(blob) {
        return None;
    }
    let layout: Layout = read_layout(blob);
    proof {
        let t = blob@.len() - TRAILER_LEN;
        lemma_be_bound(blob@.subrange(t + 8, t + 16));
        lemma_be_bound(blob@.subrange(t + 16, t + 24));
        lemma_be_bound(blob@.subrange(t + 24, t + 32));
    }
    if !check_layout(blob, &layout) {
        return None;
    }
    let root: usize = match offset_of(blob, &layout, layout.top) {
        Some(root) => root,
        None => return None,
    };
    if blob[root] / 16 != 10 {
        return None;
    }
    let (count, start) = match collection_count(blob, root) {
        Some(found) => found,
        None => return None,
    };
    if count > MAX_ELEMENTS as u64 {
        return None;
    }
    read_elements(blob, &layout, start, count)
}

/// Whether the blob has the header and room for a trailer.
fn is_framed(blob: &[u8]) -> (r: bool)
    ensures
        r == framed(blob@),
{
    if blob.len() < HEADER_LEN + TRAILER_LEN {
        return false;
    }
    let ghost head = blob@.take(HEADER_LEN as int);
    let ghost magic = seq![0x62u8, 0x70, 0x6c, 0x69, 0x73, 0x74, 0x30, 0x30];
    let r = blob[0] == 0x62 && blob[1] == 0x70 && blob[2] == 0x6c && blob[3] == 0x69 && blob[4]
        == 0x73 && blob[5] == 0x74 && blob[6] == 0x30 && blob[7] == 0x30;
    proof {
        assert(forall|i: int| 0 <= i < 8 ==> head[i] == blob@[i]);
        if r {
            assert(head =~= magic);
        } else {
            assert(magic[0] == 0x62 && magic[1] == 0x70 && magic[2] == 0x6c && magic[3] == 0x69
                && magic[4] == 0x73 && magic[5] == 0x74 && magic[6] == 0x30 && magic[7] == 0x30);
            assert(head[0] != magic[0] || head[1] != magic[1] || head[2] != magic[2] || head[3]
                != magic[3] || head[4] != magic[4] || head[5] != magic[5] || head[6] != magic[6]
                || head[7] != magic[7]);
        }
    }
    r
}

/// A list of elements exists only where the list of the first of them does.
proof fn lemma_elements_prefix(blob: Seq<u8>, layout: Layout, cursor: int, n: nat, count: nat)
    requires
        n <= count,
        elements(blob, layout, cursor, n) is None,
    ensures
        elements(blob, layout, cursor, count) is None,
    decreases count,
{
    if n < count {
        lemma_elements_prefix(blob, layout, cursor, n, (count - 1) as nat);
    }
}

/// Reads the `count` references from `start` on.
fn read_elements(blob: &[u8], layout: &Layout, start: usize, count: u64) -> (r: Option<Vec<i64>>)
    requires
        framed(blob@),
        consistent(*layout, blob@),
        start <= blob@.len(),
        count <= MAX_ELEMENTS,
    ensures
        match r {
            Some(values) => elements(blob@, *layout, start as int, count as nat) == Some(
                values@.map_values(|v: i64| v as int),
            ) && values@.len() == count,
            None => elements(blob@, *layout, start as int, count as nat) is None,
        },
{
    let total: usize = blob.len();
    let ghost as_int = |v: i64| v as int;
    let mut values: Vec<i64> = Vec::new();
    let mut cursor: usize = start;
    let mut n: u64 = 0;
    proof {
        assert(values@.map_values(as_int) == Seq::<int>::empty());
        assert(0 * layout.ref_size == 0);
    }
    while n < count
        invariant
            framed(blob@),
            consistent(*layout, blob@),
            n <= count <= MAX_ELEMENTS,
            total == blob@.len(),
            cursor <= total,
            cursor == start + n * layout.ref_size,
            values@.len() == n,
            as_int == (|v: i64| v as int),
            elements(blob@, *layout, start as int, n as nat) == Some(values@.map_values(as_int)),
        decreases count - n,
    {
        let ghost here = element(blob@, *layout, cursor as int);
        proof {
            assert(layout.objects * layout.offset_size >= 0) by (nonlinear_arith);
            if here is None {
                lemma_elements_prefix(
                    blob@,
                    *layout,
                    start as int,
                    (n + 1) as nat,
                    count as nat,
                );
            }
        }
        if cursor as u64 > layout.table || layout.table - (cursor as u64) < layout.ref_size {
            return None;
        }
        let idx: u64 = be_uint(blob, cursor, layout.ref_size as usize);
        if idx >= layout.objects {
            return None;
        }
        let offset: usize = match offset_of(blob, layout, idx) {
            Some(offset) => offset,
            None => return None,
        };
        let value: i64 = match read_int(blob, offset) {
            Some(value) => value,
            None => return None,
        };
        let ghost before = values@.map_values(as_int);
        values.push(value);
        proof {
            assert(values@.map_values(as_int) == before.push(value as int));
            assert((n + 1) * layout.ref_size == n * layout.ref_size + layout.ref_size)
                by (nonlinear_arith);
        }
        cursor = cursor + layout.ref_size as usize;
        n = n + 1;
    }
    Some(values)
}

/// An accepted blob never gives more than 256 values.
pub proof fn law_int_array_is_capped(blob: Seq<u8>)
    ensures
        int_array_of(blob) matches Some(values) ==> values.len() <= MAX_ELEMENTS,
{
    let t = blob.len() - TRAILER_LEN;
    let layout = Layout {
        offset_size: blob[t + 6] as u64,
        ref_size: blob[t + 7] as u64,
        objects: be_at(blob, t + 8, 8) as u64,
        top: be_at(blob, t + 16, 8) as u64,
        table: be_at(blob, t + 24, 8) as u64,
    };
    if let Some(root) = object_offset(blob, layout, layout.top as int) {
        if let Some((count, cursor)) = counted(blob, root) {
            lemma_elements_len(blob, layout, cursor, count);
        }
    }
}

/// As many elements come out as references were read.
proof fn lemma_elements_len(blob: Seq<u8>, layout: Layout, cursor: int, count: nat)
    ensures
        elements(blob, layout, cursor, count) matches Some(values) ==> values.len() == count,
    decreases count,
{
    if count > 0 {
        lemma_elements_len(blob, layout, cursor, (count - 1) as nat);
    }
}

/// Bytes denote a number with the most significant first: one byte more behind is
/// 256 times as much and that byte, and no two numbers of one width are written
/// the same.
pub proof fn law_bytes_denote_one_number(a: Seq<u8>, b: Seq<u8>, low: u8)
    ensures
        be_value(seq![]) == 0,
        be_value(a.push(low)) == 256 * be_value(a) + low,
        a.len() == b.len() && be_value(a) == be_value(b) ==> a == b,
    decreases a.len(),
{
    assert(a.push(low).drop_last() =~= a);
    if a.len() == b.len() && be_value(a) == be_value(b) {
        if a.len() > 0 {
            law_bytes_denote_one_number(a.drop_last(), b.drop_last(), low);
            assert(be_value(a.drop_last()) == be_value(b.drop_last()));
            assert(a =~= a.drop_last().push(a.last()));
            assert(b =~= b.drop_last().push(b.last()));
        } else {
            assert(a =~= b);
        }
    }
}

/// An integer object is a marker and the bytes of its number: one, two, four or
/// eight of them, as the marker says.
pub proof fn law_an_integer_is_its_bytes(before: Seq<u8>, bytes: Seq<u8>, behind: Seq<u8>)
    ensures
        bytes.len() == 1 ==> int_object(
            before.push(0x10u8) + bytes + behind,
            before.len() as int,
        ) == Some(be_value(bytes)),
        bytes.len() == 2 ==> int_object(
            before.push(0x11u8) + bytes + behind,
            before.len() as int,
        ) == Some(be_value(bytes)),
        bytes.len() == 4 ==> int_object(
            before.push(0x12u8) + bytes + behind,
            before.len() as int,
        ) == Some(be_value(bytes)),
        bytes.len() == 8 ==> int_object(
            before.push(0x13u8) + bytes + behind,
            before.len() as int,
        ) == Some(be_value(bytes)),
{
    let at = before.len() as int;
    if bytes.len() == 1 {
        let blob = before.push(0x10u8) + bytes + behind;
        assert(blob.subrange(at + 1, at + 2) =~= bytes);
    }
    if bytes.len() == 2 {
        let blob = before.push(0x11u8) + bytes + behind;
        assert(blob.subrange(at + 1, at + 3) =~= bytes);
    }
    if bytes.len() == 4 {
        let blob = before.push(0x12u8) + bytes + behind;
        assert(blob.subrange(at + 1, at + 5) =~= bytes);
    }
    if bytes.len() == 8 {
        let blob = before.push(0x13u8) + bytes + behind;
        assert(blob.subrange(at + 1, at + 9) =~= bytes);
    }
}

/// The values of an array are those that its references lead to, one each and in
/// order: the reference says which entry of the offset table, and that entry where
/// the integer is. They are read exactly where every one can be.
pub proof fn law_values_come_in_order(
    blob: Seq<u8>,
    layout: Layout,
    cursor: int,
    count: nat,
    i: int,
)
    requires
        0 <= i < count,
    ensures
        elements(blob, layout, cursor, count) matches Some(values) ==> {
            let idx = be_at(blob, cursor + i * layout.ref_size, layout.ref_size as int) as int;
            let off = be_at(
                blob,
                layout.table + idx * layout.offset_size,
                layout.offset_size as int,
            ) as int;
            &&& values.len() == count
            &&& 0 <= idx < layout.objects
            &&& HEADER_LEN <= off < layout.table
            &&& int_object(blob, off) == Some(values[i] as nat)
            &&& 0 <= values[i] <= i64::MAX
        },
        elements(blob, layout, cursor, count) is None <==> exists|k: int|
            0 <= k < count && #[trigger] element_at(blob, layout, cursor, k) is None,
    decreases count,
{
    let n = (count - 1) as nat;
    lemma_elements_len(blob, layout, cursor, n);
    lemma_elements_len(blob, layout, cursor, count);
    assert(element_at(blob, layout, cursor, n as int) == element(
        blob,
        layout,
        cursor + n * layout.ref_size,
    ));
    if n > 0 {
        let at = if i < n {
            i
        } else {
            0
        };
        law_values_come_in_order(blob, layout, cursor, n, at);
    }
    if elements(blob, layout, cursor, count) is None {
        if n > 0 && elements(blob, layout, cursor, n) is None {
            let k = choose|k: int|
                0 <= k < n && #[trigger] element_at(blob, layout, cursor, k) is None;
            assert(element_at(blob, layout, cursor, k) is None);
        } else {
            assert(element_at(blob, layout, cursor, n as int) is None);
        }
    }
    if exists|k: int| 0 <= k < count && #[trigger] element_at(blob, layout, cursor, k) is None {
        let k = choose|k: int|
            0 <= k < count && #[trigger] element_at(blob, layout, cursor, k) is None;
        if k < n {
            assert(elements(blob, layout, cursor, n) is None);
        }
    }
}

/// The integer that the `k`-th reference from `cursor` on leads to.
pub open spec fn element_at(blob: Seq<u8>, layout: Layout, cursor: int, k: int) -> Option<int> {
    element(blob, layout, cursor + k * layout.ref_size)
}

/// An array of fewer than fifteen elements says so in its marker, and its
/// references follow at once.
pub proof fn law_a_short_array_counts_itself(before: Seq<u8>, n: u8, behind: Seq<u8>)
    requires
        n < 15,
    ensures
        counted(before.push((0xa0 + n) as u8) + behind, before.len() as int) == Some(
            (n as nat, before.len() as int + 1),
        ),
        counted(
            before.push(0xafu8).push(0x10u8).push(n) + behind,
            before.len() as int,
        ) == Some((n as nat, before.len() as int + 3)),
{
    let at = before.len() as int;
    let marker = (0xa0 + n) as u8;
    let short = before.push(marker) + behind;
    assert(short[at] == marker);
    let long = before.push(0xafu8).push(0x10u8).push(n) + behind;
    assert(long[at] == 0xaf);
    assert(long[at + 1] == 0x10);
    let bytes = long.subrange(at + 2, at + 3);
    assert(bytes =~= seq![n]);
    reveal_with_fuel(be_value, 2);
    assert(bytes.drop_last() =~= Seq::<u8>::empty());
}

/// The layout that the trailer of a blob gives.
pub open spec fn trailer_of(blob: Seq<u8>) -> Layout {
    let t = blob.len() - TRAILER_LEN;
    Layout {
        offset_size: blob[t + 6] as u64,
        ref_size: blob[t + 7] as u64,
        objects: be_at(blob, t + 8, 8) as u64,
        top: be_at(blob, t + 16, 8) as u64,
        table: be_at(blob, t + 24, 8) as u64,
    }
}

/// A blob that starts as a property list does, whose trailer fits it and whose root
/// is an array, gives the integers of that array; any other start, and any other
/// root, gives nothing.
pub proof fn law_a_list_is_read_from_its_root(blob: Seq<u8>, root: int, count: nat, cursor: int)
    ensures
        ({
            let layout = trailer_of(blob);
            let named = object_offset(blob, layout, layout.top as int);
            &&& blob.len() < 40 ==> int_array_of(blob) is None
            &&& blob.len() > 0 && blob[0] != 0x62 ==> int_array_of(blob) is None
            &&& framed(blob) && consistent(layout, blob) && named == Some(root) && blob[root] / 16
                == 10 && counted(blob, root) == Some((count, cursor)) && count <= 256
                ==> int_array_of(blob) == elements(blob, layout, cursor, count)
            &&& named == Some(root) && blob[root] / 16 != 10 ==> int_array_of(blob) is None
            &&& !consistent(layout, blob) ==> int_array_of(blob) is None
        }),
{
    let magic = seq![0x62u8, 0x70, 0x6c, 0x69, 0x73, 0x74, 0x30, 0x30];
    if blob.len() >= 40 {
        assert(blob.take(8)[0] == blob[0]);
        assert(magic[0] == 0x62);
    }
}

/// An entry of the offset table leads among the objects or nowhere, and a table or
/// a root that does not fit is no layout.
pub proof fn law_offsets_stay_among_the_objects(blob: Seq<u8>, layout: Layout, idx: int)
    ensures
        object_offset(blob, layout, idx) matches Some(off) ==> 8 <= off < layout.table && off
            == be_at(
            blob,
            layout.table + idx * layout.offset_size,
            layout.offset_size as int,
        ),
        layout.top >= layout.objects ==> !consistent(layout, blob),
        layout.offset_size == 0 || layout.offset_size > 8 || layout.ref_size == 0
            || layout.ref_size > 8 ==> !consistent(layout, blob),
        layout.table + layout.objects * layout.offset_size > blob.len() - 32 ==> !consistent(
            layout,
            blob,
        ),
{
}

} // verus!
