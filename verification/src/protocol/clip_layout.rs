//! Where the parts of clipboard messages stand on the wire.

use crate::protocol::cliprdr::{
    data_of, data_text, entry_is_text, general_capability, group_descriptor, is_text_format,
    list_has_text, message, parsed, text_data, until_null, whole_units, ClipView,
};
use crate::text::{law_utf16_round_trip, lemma_utf16_no_null, utf16};
use crate::wire::{
    bytes32, lemma_bytes32, lemma_unit_bytes, number16, number32, unit_bytes, zero_bytes,
};
use vstd::prelude::*;

verus! {

/// Up to the first null unit: nothing that is kept is null, and what follows starts with
/// one or is nothing.
pub proof fn law_until_null(u: Seq<u16>)
    ensures
        ({
            let n = until_null(u).len() as int;
            &&& n <= u.len()
            &&& until_null(u) == u.take(n)
            &&& forall|k: int| 0 <= k < n ==> u[k] != 0
            &&& n < u.len() ==> u[n] == 0
        }),
    decreases u.len(),
{
    if u.len() == 0 || u[0] == 0 {
        assert(until_null(u) =~= u.take(0));
    } else {
        law_until_null(u.skip(1));
        let m = until_null(u.skip(1)).len() as int;
        assert(until_null(u) =~= u.take(m + 1)) by {
            assert(u.skip(1).take(m) =~= u.subrange(1, m + 1));
        }
        assert forall|k: int| 0 <= k < m + 1 implies u[k] != 0 by {
            if k > 0 {
                assert(u.skip(1)[k - 1] == u[k]);
            }
        }
        if m + 1 < u.len() {
            assert(u.skip(1)[m] == u[m + 1]);
        }
    }
}

/// The units of some bytes: two bytes each, the low one first; an odd byte is left out.
pub proof fn law_whole_units(b: Seq<u8>, k: int)
    requires
        0 <= k,
        2 * k + 2 <= b.len(),
    ensures
        whole_units(b).len() == b.len() as int / 2,
        whole_units(b)[k] == number16(b, 2 * k),
{
}

/// A group descriptor counts one file and says that its attributes (normal) and its size
/// are valid. The size stands there with its high half first. The name stands at byte 76:
/// its first 259 units, then nulls up to the end at byte 596.
pub proof fn law_descriptor_layout(name: Seq<char>, size: u64, k: int)
    ensures
        ({
            let g = group_descriptor(name, size);
            let u = utf16(name);
            &&& g.len() == 596
            &&& number32(g, 0) == 1
            &&& number32(g, 4) == 0x44
            &&& number32(g, 40) == 0x80
            &&& number32(g, 68) * 0x1_0000_0000 + number32(g, 72) == size
            &&& 8 <= k < 40 || 44 <= k < 68 ==> g[k] == 0
            &&& 0 <= k < 260 ==> number16(g, 76 + 2 * k) == (if k < u.len() && k < 259 {
                u[k] as int
            } else {
                0
            })
        }),
{
    let high = (size / 0x1_0000_0000) as u32;
    let low = (size % 0x1_0000_0000) as u32;
    let head = bytes32(1) + bytes32(0x44) + zero_bytes(32) + bytes32(0x80) + zero_bytes(16)
        + zero_bytes(8) + bytes32(high) + bytes32(low);
    let g = group_descriptor(name, size);
    let field = crate::protocol::cliprdr::name_field(name);
    assert(g == head + field);
    lemma_descriptor_head(head, high, low);
    lemma_name_field(name, k);
    assert forall|i: int| 0 <= i < 76 implies g[i] == head[i] by {}
    if 0 <= k < 260 {
        assert(g[76 + 2 * k] == field[2 * k]);
        assert(g[76 + 2 * k + 1] == field[2 * k + 1]);
    }
}

proof fn lemma_name_field(name: Seq<char>, k: int)
    ensures
        crate::protocol::cliprdr::name_field(name).len() == 520,
        0 <= k < 260 ==> number16(crate::protocol::cliprdr::name_field(name), 2 * k) == (if k
            < utf16(name).len() && k < 259 {
            utf16(name)[k] as int
        } else {
            0
        }),
{
    let u = utf16(name);
    let units = if u.len() <= 259 {
        u
    } else {
        u.take(259)
    };
    lemma_unit_bytes(units);
    let field = crate::protocol::cliprdr::name_field(name);
    if 0 <= k < units.len() {
        assert(units[k] == u[k]);
        assert(field[2 * k] == unit_bytes(units)[2 * k]);
        assert(field[2 * k + 1] == unit_bytes(units)[2 * k + 1]);
    } else if units.len() <= k < 260 {
        assert(field[2 * k] == 0);
        assert(field[2 * k + 1] == 0);
    }
}

proof fn lemma_descriptor_head(head: Seq<u8>, high: u32, low: u32)
    requires
        head == bytes32(1) + bytes32(0x44) + zero_bytes(32) + bytes32(0x80) + zero_bytes(16)
            + zero_bytes(8) + bytes32(high) + bytes32(low),
    ensures
        head.len() == 76,
        number32(head, 0) == 1,
        number32(head, 4) == 0x44,
        number32(head, 40) == 0x80,
        number32(head, 68) == high,
        number32(head, 72) == low,
        forall|k: int| 8 <= k < 40 || 44 <= k < 68 ==> head[k] == 0,
{
    lemma_bytes32(1);
    lemma_bytes32(0x44);
    lemma_bytes32(0x80);
    lemma_bytes32(high);
    lemma_bytes32(low);
    assert(head[0] == bytes32(1)[0] && head[1] == bytes32(1)[1] && head[2] == bytes32(1)[2]
        && head[3] == bytes32(1)[3]);
    assert(head[4] == bytes32(0x44)[0] && head[5] == bytes32(0x44)[1] && head[6] == bytes32(
        0x44,
    )[2] && head[7] == bytes32(0x44)[3]);
    assert(head[40] == bytes32(0x80)[0] && head[41] == bytes32(0x80)[1] && head[42] == bytes32(
        0x80,
    )[2] && head[43] == bytes32(0x80)[3]);
    assert(head[68] == bytes32(high)[0] && head[69] == bytes32(high)[1] && head[70] == bytes32(
        high,
    )[2] && head[71] == bytes32(high)[3]);
    assert(head[72] == bytes32(low)[0] && head[73] == bytes32(low)[1] && head[74] == bytes32(low)[2]
        && head[75] == bytes32(low)[3]);
}

/// The name is read back from its field: the units up to the first null are those of the
/// name, or the first 259 of a longer one, and decode to the name. Names with a null
/// character end there.
pub proof fn law_descriptor_names_the_file(name: Seq<char>, size: u64)
    requires
        forall|i: int| 0 <= i < name.len() ==> name[i] as u32 != 0,
    ensures
        ({
            let field = group_descriptor(name, size).subrange(76, 596);
            let u = utf16(name);
            &&& until_null(whole_units(field)) == (if u.len() <= 259 {
                u
            } else {
                u.take(259)
            })
            &&& u.len() <= 259 ==> data_text(field) == name
        }),
{
    let g = group_descriptor(name, size);
    law_descriptor_layout(name, size, 0);
    let field = g.subrange(76, 596);
    let u = utf16(name);
    let n = if u.len() <= 259 {
        u.len() as int
    } else {
        259
    };
    let w = whole_units(field);
    lemma_utf16_no_null(name);
    assert(w.len() == 260);
    assert forall|k: int| 0 <= k < 260 implies #[trigger] w[k] == (if k < n {
        u[k]
    } else {
        0
    }) by {
        law_descriptor_layout(name, size, k);
        assert(field[2 * k] == g[76 + 2 * k]);
        assert(field[2 * k + 1] == g[76 + 2 * k + 1]);
    }
    law_until_null(w);
    let m = until_null(w).len() as int;
    assert(m == n) by {
        if m < n {
            assert(w[m] == 0);
        }
        if m > n {
            assert(w[n] != 0);
        }
    }
    assert(until_null(w) =~= u.take(n));
    if u.len() <= 259 {
        assert(u.take(n) =~= u);
        law_utf16_round_trip(name);
    }
}

/// A message: the type and the flags in two bytes each, the length of the data in four,
/// then the data.
pub proof fn law_message_layout(msg_type: u16, msg_flags: u16, data: Seq<u8>)
    requires
        data.len() <= 0xffff_ffff,
    ensures
        ({
            let m = message(msg_type, msg_flags, data);
            &&& number16(m, 0) == msg_type
            &&& number16(m, 2) == msg_flags
            &&& number32(m, 4) == data.len()
            &&& m.skip(8) == data
        }),
{
    let m = message(msg_type, msg_flags, data);
    let b = bytes32(data.len() as u32);
    lemma_bytes32(data.len() as u32);
    assert(m[4] == b[0] && m[5] == b[1] && m[6] == b[2] && m[7] == b[3]);
    assert(m.skip(8) =~= data);
}

/// The general capability set: one set, of type 1 and 12 bytes, version 2, with the flags.
pub proof fn law_capability_layout(flags: u32)
    ensures
        ({
            let g = general_capability(flags);
            &&& g.len() == 16
            &&& number16(g, 0) == 1
            &&& number16(g, 2) == 0
            &&& number16(g, 4) == 1
            &&& number16(g, 6) == 12
            &&& number32(g, 8) == 2
            &&& number32(g, 12) == flags
        }),
{
    let g = general_capability(flags);
    lemma_bytes32(2);
    lemma_bytes32(flags);
    assert(g[8] == bytes32(2)[0] && g[9] == bytes32(2)[1] && g[10] == bytes32(2)[2] && g[11]
        == bytes32(2)[3]);
    assert(g[12] == bytes32(flags)[0] && g[13] == bytes32(flags)[1] && g[14] == bytes32(flags)[2]
        && g[15] == bytes32(flags)[3]);
}

/// Text data: the units, the low byte first, and a null unit.
pub proof fn law_text_data_layout(text: Seq<char>, k: int)
    requires
        0 <= k <= utf16(text).len(),
    ensures
        text_data(text).len() == 2 * utf16(text).len() + 2,
        number16(text_data(text), 2 * k) == (if k < utf16(text).len() {
            utf16(text)[k] as int
        } else {
            0
        }),
{
    let u = utf16(text);
    lemma_unit_bytes(u);
    if k < u.len() {
        assert(text_data(text)[2 * k] == unit_bytes(u)[2 * k]);
        assert(text_data(text)[2 * k + 1] == unit_bytes(u)[2 * k + 1]);
    }
}

/// The data of an inbound message: as many bytes as its length says, or as there are.
pub open spec fn carried(m: Seq<u8>) -> Seq<u8> {
    if 8 + number32(m, 4) <= m.len() {
        m.subrange(8, 8 + number32(m, 4))
    } else {
        m.skip(8)
    }
}

/// What an inbound message says, by its type: 1 ready, 7 capabilities, 3 the answer to a
/// list, 4 a request for data, 5 data, 8 a request for a file's contents. Bit 0 of the
/// flags is success.
pub proof fn law_messages_are_read(m: Seq<u8>)
    requires
        m.len() >= 8,
    ensures
        ({
            let t = number16(m, 0);
            let ok = number16(m, 2) % 2 == 1;
            let data = carried(m);
            let p = parsed(m);
            &&& t == 1 ==> p == Some(ClipView::MonitorReady)
            &&& t == 7 ==> p == Some(ClipView::Capabilities)
            &&& t == 3 ==> p == Some(ClipView::FormatListResponse { ok })
            &&& t == 4 ==> (p matches Some(ClipView::FormatDataRequest { format_id }) && format_id
                == (if data.len() >= 4 {
                number32(data, 0)
            } else {
                0
            }))
            &&& t == 5 ==> p == Some(
                ClipView::FormatDataResponse {
                    ok,
                    text: if ok {
                        Some(data_text(data))
                    } else {
                        None
                    },
                },
            )
            &&& t == 8 && data.len() >= 24 ==> (p matches Some(
                ClipView::FileContentsRequest {
                    stream_id,
                    lindex,
                    size_only,
                    position,
                    requested,
                },
            ) && stream_id == number32(data, 0) && lindex == number32(data, 4) && size_only == (
            number32(data, 8) % 2 == 1) && position == number32(data, 12) + 0x1_0000_0000
                * number32(data, 16) && requested == number32(data, 20))
            &&& t == 0 || t == 6 || t > 8 || t == 8 && data.len() < 24 ==> (p matches Some(
                ClipView::Other { msg_type },
            ) && msg_type == t)
        }),
{
    let f = crate::wire::le16_at(m, 2);
    assert((f & 1 != 0) == (f % 2 == 1)) by (bit_vector);
    let data = carried(m);
    assert(data_of(m) =~= data);
    if data.len() >= 24 {
        let s = crate::wire::le32_at(data, 8);
        assert((s & 1 != 0) == (s % 2 == 1)) by (bit_vector);
    }
}

/// A message without a whole header says nothing.
pub proof fn law_cut_messages_say_nothing(m: Seq<u8>)
    requires
        m.len() < 8,
    ensures
        parsed(m) is None,
{
}

/// A list of formats (type 2) that is flagged as ASCII (bit 2), or has the length of short
/// entries, offers text exactly if the number at the start of one of its 36-byte entries
/// is 13 or 1.
pub proof fn law_short_lists_are_read(m: Seq<u8>)
    requires
        m.len() >= 8,
        number16(m, 0) == 2,
        number16(m, 2) / 4 % 2 == 1 || carried(m).len() % 36 == 0,
    ensures
        ({
            let data = carried(m);
            parsed(m) matches Some(ClipView::FormatList { has_text }) && has_text == exists|k: int|
                0 <= k && 36 * k + 4 <= data.len() && (#[trigger] number32(data, 36 * k) == 13
                    || number32(data, 36 * k) == 1)
        }),
{
    let f = crate::wire::le16_at(m, 2);
    assert((f & 4 != 0) == (f / 4 % 2 == 1)) by (bit_vector);
    let data = carried(m);
    assert(data_of(m) =~= data);
    if list_has_text(data, f) {
        let k = choose|k: int| 0 <= k && #[trigger] entry_is_text(data, k);
        assert(number32(data, 36 * k) == 13 || number32(data, 36 * k) == 1);
    }
    if exists|k: int|
        0 <= k && 36 * k + 4 <= data.len() && (#[trigger] number32(data, 36 * k) == 13 || number32(
            data,
            36 * k,
        ) == 1) {
        let k = choose|k: int|
            0 <= k && 36 * k + 4 <= data.len() && (#[trigger] number32(data, 36 * k) == 13
                || number32(data, 36 * k) == 1);
        assert(entry_is_text(data, k));
    }
}

/// Text formats are Unicode text (13) and text in a code page (1).
pub proof fn law_text_formats(id: u32)
    ensures
        is_text_format(id) <==> id == 13 || id == 1,
{
}

} // verus!
