//! Properties that relate the operations of the library to one another.
use vstd::prelude::*;

use crate::error::NdnError;
use crate::ndn::{
    block, block_if, data_plan, data_steps, interest_plan, interest_steps, signature_writes,
    u32_field, DataView, InterestView, components_writes, is_prefix, lemma_components_writes_concat, name_plan, path_components,
    read_component, read_components, read_name, scratch_encode, split_state, fresh_scratch, SCRATCH_LEN,
};
use crate::forwarding::{kind_of, PacketKind};
use crate::producer::answer_content;
use crate::{packet_name, packet_text, NdnPacket};
use crate::text::{component_text, components_text, hex_digit, hex_text, name_text};
use crate::tlv::TlvType;
use vstd::utf8::{
    decode_utf8_encode_utf8, encode_utf8, is_ascii_chars, is_ascii_chars_encode_utf8, valid_utf8,
};
use crate::wire::{
    lemma_read_tlv_bytes, lemma_read_varint_bytes, lemma_run_writes_ok, lemma_tlv_bytes,
    lemma_varint_bytes, peek_type, performs, read_tlv, read_varint, run_writes, splice, tlv_bytes,
    tlv_writes, varint_bytes, varint_writes, WriteState,
};

verus! {

/// Every TLV type is read back from its own type number.
pub proof fn law_tlv_type_code_roundtrip(t: TlvType)
    ensures
        TlvType::parse_code(t.code()) == Ok::<TlvType, NdnError>(t),
{
}

/// Distinct TLV types have distinct type numbers.
pub proof fn law_tlv_type_code_injective(t1: TlvType, t2: TlvType)
    ensures
        t1.code() == t2.code() ==> t1 == t2,
{
}

/// A variable-length number takes 1 byte up to 252, 3 bytes up to 0xFFFF,
/// 5 bytes up to 0xFFFFFFFF and 9 bytes beyond.
pub proof fn law_varint_length(v: u64)
    ensures
        varint_bytes(v).len() == (if v <= 252 {
            1int
        } else if v <= 0xFFFF {
            3int
        } else if v <= 0xFFFF_FFFF {
            5int
        } else {
            9int
        }),
{
    lemma_varint_bytes(v);
}

/// A run of writes goes through exactly when its bytes fit in what is left of
/// the buffer. It then puts them at the write position, moves past them, and
/// leaves every other byte as it was.
pub proof fn law_writes_fit(pre: WriteState, writes: Seq<Seq<u8>>)
    requires
        pre.well_formed(),
    ensures
        (run_writes(pre, writes).1 is None) == (pre.pos + writes.flatten().len()
            <= pre.bytes.len()),
        run_writes(pre, writes).1 is None ==> run_writes(pre, writes).0 == (WriteState {
            bytes: splice(pre.bytes, pre.pos, writes.flatten()),
            pos: pre.pos + writes.flatten().len(),
        }),
{
    lemma_run_writes_ok(pre, writes);
}

/// Bytes before the write position are never changed by an encoding.
pub proof fn law_writes_keep_prefix(pre: WriteState, post: WriteState, writes: Seq<Seq<u8>>, r: Result<(), NdnError>)
    requires
        pre.well_formed(),
        performs(pre, post, writes, r),
    ensures
        post.bytes.len() == pre.bytes.len(),
        pre.pos <= post.pos,
        post.bytes.subrange(0, pre.pos) == pre.bytes.subrange(0, pre.pos),
{
    lemma_run_writes_ok(pre, writes);
}

/// Where a write went through, its bytes are found at the write position afterwards.
proof fn lemma_written_bytes(pre: WriteState, post: WriteState, writes: Seq<Seq<u8>>)
    requires
        pre.well_formed(),
        performs(pre, post, writes, Ok(())),
    ensures
        post.pos == pre.pos + writes.flatten().len(),
        post.bytes.len() == pre.bytes.len(),
        post.pos <= post.bytes.len(),
        post.bytes.subrange(pre.pos, post.pos) == writes.flatten(),
{
    lemma_run_writes_ok(pre, writes);
    let flat = writes.flatten();
    assert(splice(pre.bytes, pre.pos, flat).subrange(pre.pos, pre.pos + flat.len()) =~= flat);
}

/// What `encode_varint` wrote, `decode_varint` reads back: reading at the
/// position where the write began gives the number and ends where the write ended.
pub proof fn law_varint_roundtrip(pre: WriteState, post: WriteState, v: u64)
    requires
        pre.well_formed(),
        performs(pre, post, varint_writes(v), Ok(())),
    ensures
        read_varint(post.bytes, pre.pos) == (post.pos, Ok::<u64, NdnError>(v)),
{
    lemma_written_bytes(pre, post, varint_writes(v));
    lemma_read_varint_bytes(v, post.bytes, pre.pos);
}

/// Two numbers encoded one after the other are decoded one after the other:
/// the second write leaves the bytes of the first in place.
pub proof fn law_varints_in_sequence(
    pre: WriteState,
    mid: WriteState,
    post: WriteState,
    v1: u64,
    v2: u64,
)
    requires
        pre.well_formed(),
        performs(pre, mid, varint_writes(v1), Ok(())),
        performs(mid, post, varint_writes(v2), Ok(())),
    ensures
        read_varint(post.bytes, pre.pos) == (mid.pos, Ok::<u64, NdnError>(v1)),
        read_varint(post.bytes, mid.pos) == (post.pos, Ok::<u64, NdnError>(v2)),
{
    lemma_written_bytes(pre, mid, varint_writes(v1));
    lemma_run_writes_ok(mid, varint_writes(v2));
    lemma_written_bytes(mid, post, varint_writes(v2));
    assert(post.bytes.subrange(pre.pos, mid.pos) =~= post.bytes.subrange(0, mid.pos).subrange(
        pre.pos,
        mid.pos,
    ));
    assert(mid.bytes.subrange(pre.pos, mid.pos) =~= mid.bytes.subrange(0, mid.pos).subrange(
        pre.pos,
        mid.pos,
    ));
    lemma_read_varint_bytes(v1, post.bytes, pre.pos);
    lemma_read_varint_bytes(v2, post.bytes, mid.pos);
}

/// What `encode_tlv` wrote, `decode_tlv` reads back: reading at the position
/// where the write began gives the type and the value and ends where the write ended.
pub proof fn law_tlv_roundtrip(pre: WriteState, post: WriteState, t: TlvType, value: Seq<u8>)
    requires
        pre.well_formed(),
        performs(pre, post, tlv_writes(t.code() as u64, value), Ok(())),
    ensures
        read_tlv(post.bytes, pre.pos) == (
            post.pos,
            Ok::<(TlvType, Seq<u8>), NdnError>((t, value)),
        ),
{
    lemma_written_bytes(pre, post, tlv_writes(t.code() as u64, value));
    lemma_tlv_bytes(t.code() as u64, value);
    lemma_read_tlv_bytes(t, value, post.bytes, pre.pos);
}

/// Two TLV blocks encoded one after the other are decoded one after the other.
pub proof fn law_tlvs_in_sequence(
    pre: WriteState,
    mid: WriteState,
    post: WriteState,
    t1: TlvType,
    value1: Seq<u8>,
    t2: TlvType,
    value2: Seq<u8>,
)
    requires
        pre.well_formed(),
        performs(pre, mid, tlv_writes(t1.code() as u64, value1), Ok(())),
        performs(mid, post, tlv_writes(t2.code() as u64, value2), Ok(())),
    ensures
        read_tlv(post.bytes, pre.pos) == (
            mid.pos,
            Ok::<(TlvType, Seq<u8>), NdnError>((t1, value1)),
        ),
        read_tlv(post.bytes, mid.pos) == (
            post.pos,
            Ok::<(TlvType, Seq<u8>), NdnError>((t2, value2)),
        ),
{
    lemma_written_bytes(pre, mid, tlv_writes(t1.code() as u64, value1));
    lemma_run_writes_ok(mid, tlv_writes(t2.code() as u64, value2));
    lemma_written_bytes(mid, post, tlv_writes(t2.code() as u64, value2));
    lemma_tlv_bytes(t1.code() as u64, value1);
    lemma_tlv_bytes(t2.code() as u64, value2);
    assert(post.bytes.subrange(pre.pos, mid.pos) =~= post.bytes.subrange(0, mid.pos).subrange(
        pre.pos,
        mid.pos,
    ));
    assert(mid.bytes.subrange(pre.pos, mid.pos) =~= mid.bytes.subrange(0, mid.pos).subrange(
        pre.pos,
        mid.pos,
    ));
    lemma_read_tlv_bytes(t1, value1, post.bytes, pre.pos);
    lemma_read_tlv_bytes(t2, value2, post.bytes, mid.pos);
}

/// Peeking gives the type that decoding the block would give.
pub proof fn law_peek_agrees_with_decode(s: Seq<u8>, pos: int)
    ensures
        read_tlv(s, pos).1 matches Ok((t, _)) ==> peek_type(s, pos) == Ok::<TlvType, NdnError>(
            t,
        ),
{
}

/// Reading the component blocks that a name's components make gives the components back.
proof fn lemma_read_components_of(name: Seq<Seq<u8>>, s: Seq<u8>, pos: int)
    requires
        0 <= pos <= s.len(),
        s.subrange(pos, s.len() as int) == components_writes(name).flatten(),
        s.len() <= usize::MAX,
    ensures
        read_components(s, pos) == Ok::<Seq<Seq<u8>>, NdnError>(name),
    decreases name.len(),
{
    if name.len() == 0 {
        assert(components_writes(name).flatten() =~= Seq::<u8>::empty());
        assert(s.subrange(pos, s.len() as int).len() == 0);
        assert(name =~= Seq::<Seq<u8>>::empty());
    } else {
        let c = name[0];
        let rest = name.drop_first();
        assert(name =~= seq![c] + rest);
        lemma_components_writes_concat(seq![c], rest);
        assert(seq![c].drop_last() =~= Seq::<Seq<u8>>::empty());
        assert(components_writes(seq![c]) =~= block(TlvType::GenericNameComponent, c)) by {
            reveal_with_fuel(components_writes, 2);
            assert(seq![c].last() == c);
        }
        vstd::seq_lib::lemma_flatten_concat(
            block(TlvType::GenericNameComponent, c),
            components_writes(rest),
        );
        let first = tlv_bytes(TlvType::GenericNameComponent.code() as u64, c);
        let k = first.len() as int;
        let all = s.subrange(pos, s.len() as int);
        assert(all =~= first + components_writes(rest).flatten());
        lemma_tlv_bytes(TlvType::GenericNameComponent.code() as u64, c);
        assert(s.subrange(pos, pos + k) =~= first) by {
            assert(s.subrange(pos, pos + k) =~= all.subrange(0, k));
        }
        lemma_read_tlv_bytes(TlvType::GenericNameComponent, c, s, pos);
        assert(read_component(s, pos) == (pos + k, Ok::<Seq<u8>, NdnError>(c)));
        lemma_varint_bytes(TlvType::GenericNameComponent.code() as u64);
        assert(s.subrange(pos + k, s.len() as int) =~= components_writes(rest).flatten()) by {
            assert(s.subrange(pos + k, s.len() as int) =~= all.subrange(k, all.len() as int));
        }
        lemma_varint_bytes(c.len() as u64);
        assert(k >= 2);
        assert(pos + k <= s.len());
        lemma_read_components_of(rest, s, pos + k);
        assert(seq![c] + rest =~= name);
        assert(read_components(s, pos) == Ok::<Seq<Seq<u8>>, NdnError>(seq![c] + rest));
    }
}

/// What `Name::encode_tlv` wrote, `Name::decode_tlv` reads back: reading at
/// the position where the write began gives the same name and ends where the
/// write ended.
pub proof fn law_name_roundtrip(pre: WriteState, post: WriteState, name: Seq<Seq<u8>>)
    requires
        pre.well_formed(),
        name_plan(name) is Ok,
        performs(pre, post, name_plan(name)->Ok_0, Ok(())),
    ensures
        read_name(post.bytes, pre.pos) == (post.pos, Ok::<Seq<Seq<u8>>, NdnError>(name)),
{
    let content = components_writes(name).flatten();
    let st0 = WriteState { bytes: fresh_scratch(), pos: 0 };
    lemma_run_writes_ok(st0, components_writes(name));
    assert(scratch_encode(components_writes(name)) == Ok::<Seq<u8>, NdnError>(content));
    law_tlv_roundtrip(pre, post, TlvType::Name, content);
    assert(content.subrange(0, content.len() as int) =~= content);
    lemma_read_components_of(name, content, 0);
}

/// What `encode_tlv` wrote, a decoder over exactly those bytes reads back: the
/// type and the value, after which nothing is left.
pub proof fn law_tlv_roundtrip_written(
    pre: WriteState,
    post: WriteState,
    t: TlvType,
    value: Seq<u8>,
)
    requires
        pre.well_formed(),
        performs(pre, post, tlv_writes(t.code() as u64, value), Ok(())),
    ensures
        ({
            let s = post.bytes.subrange(pre.pos, post.pos);
            read_tlv(s, 0) == (s.len() as int, Ok::<(TlvType, Seq<u8>), NdnError>((t, value)))
        }),
{
    let s = post.bytes.subrange(pre.pos, post.pos);
    lemma_written_bytes(pre, post, tlv_writes(t.code() as u64, value));
    lemma_tlv_bytes(t.code() as u64, value);
    assert(s.subrange(0, s.len() as int) =~= s);
    lemma_read_tlv_bytes(t, value, s, 0);
}

/// What `Name::encode_tlv` wrote, a decoder over exactly those bytes reads
/// back as the same name, after which nothing is left.
pub proof fn law_name_roundtrip_written(pre: WriteState, post: WriteState, name: Seq<Seq<u8>>)
    requires
        pre.well_formed(),
        name_plan(name) is Ok,
        performs(pre, post, name_plan(name)->Ok_0, Ok(())),
    ensures
        ({
            let s = post.bytes.subrange(pre.pos, post.pos);
            read_name(s, 0) == (s.len() as int, Ok::<Seq<Seq<u8>>, NdnError>(name))
        }),
{
    let content = components_writes(name).flatten();
    let st0 = WriteState { bytes: fresh_scratch(), pos: 0 };
    lemma_run_writes_ok(st0, components_writes(name));
    assert(scratch_encode(components_writes(name)) == Ok::<Seq<u8>, NdnError>(content));
    law_tlv_roundtrip_written(pre, post, TlvType::Name, content);
    assert(content.subrange(0, content.len() as int) =~= content);
    lemma_read_components_of(name, content, 0);
}

/// The components that `Name::new` makes are never empty and never hold a '/'.
pub proof fn law_path_components_clean(bytes: Seq<u8>)
    ensures
        forall|i: int|
            0 <= i < path_components(bytes).len() ==> (#[trigger] path_components(bytes)[i]).len()
                > 0 && !path_components(bytes)[i].contains(0x2Fu8),
{
    lemma_split_state_clean(bytes);
}

proof fn lemma_split_state_clean(bytes: Seq<u8>)
    ensures
        forall|i: int|
            0 <= i < split_state(bytes).0.len() ==> (#[trigger] split_state(bytes).0[i]).len() > 0
                && !split_state(bytes).0[i].contains(0x2Fu8),
        !split_state(bytes).1.contains(0x2Fu8),
    decreases bytes.len(),
{
    if bytes.len() > 0 {
        lemma_split_state_clean(bytes.drop_last());
        let (done, cur) = split_state(bytes.drop_last());
        if bytes.last() != 0x2Fu8 {
            assert forall|j: int| 0 <= j < cur.push(bytes.last()).len() implies cur.push(
                bytes.last(),
            )[j] != 0x2Fu8 by {
                if j < cur.len() {
                    assert(cur.push(bytes.last())[j] == cur[j]);
                }
            }
        }
    }
}

/// Every name is a prefix of itself.
pub proof fn law_prefix_reflexive(a: Seq<Seq<u8>>)
    ensures
        is_prefix(a, a),
{
    assert(a.subrange(0, a.len() as int) =~= a);
}

/// The empty name is a prefix of every name.
pub proof fn law_empty_is_prefix(a: Seq<Seq<u8>>)
    ensures
        is_prefix(Seq::<Seq<u8>>::empty(), a),
{
    assert(a.subrange(0, 0) =~= Seq::<Seq<u8>>::empty());
}

/// A name is a prefix of itself with a component appended.
pub proof fn law_prefix_of_append(a: Seq<Seq<u8>>, c: Seq<u8>)
    ensures
        is_prefix(a, a.push(c)),
        !is_prefix(a.push(c), a),
{
    assert(a.push(c).subrange(0, a.len() as int) =~= a);
}

/// Being a prefix is transitive.
pub proof fn law_prefix_transitive(a: Seq<Seq<u8>>, b: Seq<Seq<u8>>, c: Seq<Seq<u8>>)
    requires
        is_prefix(a, b),
        is_prefix(b, c),
    ensures
        is_prefix(a, c),
{
    assert(c.subrange(0, a.len() as int) =~= c.subrange(0, b.len() as int).subrange(
        0,
        a.len() as int,
    ));
}

/// Names that are prefixes of each other are equal.
pub proof fn law_prefix_antisymmetric(a: Seq<Seq<u8>>, b: Seq<Seq<u8>>)
    requires
        is_prefix(a, b),
        is_prefix(b, a),
    ensures
        a == b,
{
    assert(a =~= b.subrange(0, a.len() as int));
    assert(b.subrange(0, b.len() as int) =~= b);
}

/// UTF-8 encoding goes character by character.
proof fn lemma_encode_utf8_concat(a: Seq<char>, b: Seq<char>)
    ensures
        encode_utf8(a + b) == encode_utf8(a) + encode_utf8(b),
    decreases a.len(),
{
    if a.len() == 0 {
        assert(a + b =~= b);
        assert(encode_utf8(a) + encode_utf8(b) =~= encode_utf8(b));
    } else {
        assert((a + b)[0] == a[0]);
        assert((a + b).drop_first() =~= a.drop_first() + b);
        lemma_encode_utf8_concat(a.drop_first(), b);
        assert(encode_utf8(a + b) =~= encode_utf8(a) + encode_utf8(b));
    }
}

/// The components of a name, each after a '/' byte.
pub open spec fn slash_joined(name: Seq<Seq<u8>>) -> Seq<u8>
    decreases name.len(),
{
    if name.len() == 0 {
        seq![]
    } else {
        slash_joined(name.drop_last()) + seq![0x2Fu8] + name.last()
    }
}

/// Components that a name can be made of and read back from its text: not empty,
/// without '/', and valid UTF-8.
pub open spec fn clean_components(name: Seq<Seq<u8>>) -> bool {
    forall|i: int|
        0 <= i < name.len() ==> {
            &&& (#[trigger] name[i]).len() > 0
            &&& !name[i].contains(0x2Fu8)
            &&& valid_utf8(name[i])
        }
}

proof fn lemma_slash_utf8()
    ensures
        encode_utf8(seq!['/']) == seq![0x2Fu8],
{
    let s = seq!['/'];
    assert(is_ascii_chars(s));
    is_ascii_chars_encode_utf8(s);
    assert(encode_utf8(s)[0] == 0x2Fu8);
    assert(encode_utf8(s) =~= seq![0x2Fu8]);
}

proof fn lemma_components_text_bytes(name: Seq<Seq<u8>>)
    requires
        clean_components(name),
    ensures
        encode_utf8(components_text(name)) == slash_joined(name),
    decreases name.len(),
{
    if name.len() > 0 {
        let init = name.drop_last();
        assert(clean_components(init)) by {
            assert forall|i: int| 0 <= i < init.len() implies {
                &&& (#[trigger] init[i]).len() > 0
                &&& !init[i].contains(0x2Fu8)
                &&& valid_utf8(init[i])
            } by {
                assert(init[i] == name[i]);
            }
        }
        lemma_components_text_bytes(init);
        let c = name.last();
        assert(valid_utf8(c)) by {
            assert(c == name[name.len() - 1]);
        }
        lemma_encode_utf8_concat(components_text(init) + seq!['/'], component_text(c));
        lemma_encode_utf8_concat(components_text(init), seq!['/']);
        lemma_slash_utf8();
        decode_utf8_encode_utf8(c);
    }
}

/// Reading bytes without '/' only lengthens the component being read.
proof fn lemma_split_state_plain(z: Seq<u8>, c: Seq<u8>)
    requires
        !c.contains(0x2Fu8),
    ensures
        split_state(z + c) == (split_state(z).0, split_state(z).1 + c),
    decreases c.len(),
{
    if c.len() == 0 {
        assert(z + c =~= z);
        assert(split_state(z).1 + c =~= split_state(z).1);
    } else {
        let init = c.drop_last();
        assert(!init.contains(0x2Fu8)) by {
            assert forall|j: int| 0 <= j < init.len() implies init[j] != 0x2Fu8 by {
                assert(init[j] == c[j]);
            }
        }
        lemma_split_state_plain(z, init);
        assert((z + c).drop_last() =~= z + init);
        assert((z + c).last() == c.last());
        assert(c.last() != 0x2Fu8) by {
            assert(c.last() == c[c.len() - 1]);
        }
        assert(split_state(z).1 + init.push(c.last()) =~= split_state(z).1 + c);
        assert((split_state(z).1 + init).push(c.last()) =~= split_state(z).1 + c);
    }
}

proof fn lemma_split_slash_joined(name: Seq<Seq<u8>>)
    requires
        clean_components(name),
        name.len() > 0,
    ensures
        split_state(slash_joined(name)) == (name.drop_last(), name.last()),
    decreases name.len(),
{
    let init = name.drop_last();
    let c = name.last();
    assert(!c.contains(0x2Fu8) && c.len() > 0) by {
        assert(c == name[name.len() - 1]);
    }
    let z = slash_joined(init);
    let zs = z + seq![0x2Fu8];
    assert(zs.drop_last() =~= z);
    assert(zs.last() == 0x2Fu8);
    if init.len() == 0 {
        assert(z =~= Seq::<u8>::empty());
        assert(split_state(z) == (Seq::<Seq<u8>>::empty(), Seq::<u8>::empty()));
        assert(split_state(zs) == (Seq::<Seq<u8>>::empty(), Seq::<u8>::empty()));
    } else {
        assert(clean_components(init)) by {
            assert forall|i: int| 0 <= i < init.len() implies {
                &&& (#[trigger] init[i]).len() > 0
                &&& !init[i].contains(0x2Fu8)
                &&& valid_utf8(init[i])
            } by {
                assert(init[i] == name[i]);
            }
        }
        lemma_split_slash_joined(init);
        assert(init.last().len() > 0) by {
            assert(init.last() == name[init.len() - 1]);
        }
        assert(init.drop_last().push(init.last()) =~= init);
    }
    assert(split_state(zs) == (init, Seq::<u8>::empty()));
    lemma_split_state_plain(zs, c);
    assert(Seq::<u8>::empty() + c =~= c);
}

/// A name is read back from its own text: `Name::new` of what `to_string`
/// gives is the same name, where each component is non-empty, free of '/'
/// and valid UTF-8.
pub proof fn law_name_text_roundtrip(name: Seq<Seq<u8>>)
    requires
        clean_components(name),
    ensures
        path_components(encode_utf8(name_text(name))) == name,
{
    if name.len() == 0 {
        lemma_slash_utf8();
        let b = seq![0x2Fu8];
        assert(b.drop_last() =~= Seq::<u8>::empty());
        assert(split_state(b.drop_last()) == (Seq::<Seq<u8>>::empty(), Seq::<u8>::empty()));
        assert(split_state(b) == (Seq::<Seq<u8>>::empty(), Seq::<u8>::empty()));
        assert(name =~= Seq::<Seq<u8>>::empty());
    } else {
        lemma_components_text_bytes(name);
        lemma_split_slash_joined(name);
        assert(name.last().len() > 0) by {
            assert(name.last() == name[name.len() - 1]);
        }
        assert(name.drop_last().push(name.last()) =~= name);
    }
}

/// One name is a prefix of another exactly when it has no more components and
/// each of its components equals the other's component at the same place.
pub proof fn law_prefix_componentwise(a: Seq<Seq<u8>>, b: Seq<Seq<u8>>)
    ensures
        is_prefix(a, b) <==> (a.len() <= b.len() && forall|i: int|
            0 <= i < a.len() ==> #[trigger] a[i] == b[i]),
{
    if is_prefix(a, b) {
        assert forall|i: int| 0 <= i < a.len() implies #[trigger] a[i] == b[i] by {
            assert(b.subrange(0, a.len() as int)[i] == b[i]);
        }
    }
    if a.len() <= b.len() && forall|i: int| 0 <= i < a.len() ==> #[trigger] a[i] == b[i] {
        assert(b.subrange(0, a.len() as int) =~= a);
    }
}

/// The value of a lower-case hexadecimal digit.
pub open spec fn hex_value(c: char) -> int {
    if '0' <= c && c <= '9' {
        c as int - '0' as int
    } else {
        c as int - 'a' as int + 10
    }
}

/// The hexadecimal digit of a number below 16 is the character at that place in
/// "0123456789abcdef", and it reads back as the number.
pub proof fn law_hex_digit_table(n: u8)
    ensures
        "0123456789abcdef"@.len() == 16,
        hex_digit(n) == "0123456789abcdef"@[(n % 16) as int],
        hex_value(hex_digit(n)) == n % 16,
{
    reveal_strlit("0123456789abcdef");
}

/// The hexadecimal text of bytes has two digits per byte, high half first, and
/// each pair of digits reads back as its byte.
pub proof fn law_hex_text_digits(v: Seq<u8>)
    ensures
        hex_text(v).len() == 2 * v.len(),
        forall|i: int|
            0 <= i < v.len() ==> {
                &&& hex_text(v)[2 * i] == "0123456789abcdef"@[(v[i] / 16) as int]
                &&& hex_text(v)[2 * i + 1] == "0123456789abcdef"@[(v[i] % 16) as int]
                &&& 16 * hex_value(hex_text(v)[2 * i]) + hex_value(hex_text(v)[2 * i + 1])
                    == #[trigger] v[i]
            },
    decreases v.len(),
{
    if v.len() > 0 {
        let init = v.drop_last();
        law_hex_text_digits(init);
        let b = v.last();
        law_hex_digit_table(b / 16);
        law_hex_digit_table(b % 16);
        let h = hex_text(v);
        assert forall|i: int|
            0 <= i < v.len() implies {
                &&& hex_text(v)[2 * i] == "0123456789abcdef"@[(v[i] / 16) as int]
                &&& hex_text(v)[2 * i + 1] == "0123456789abcdef"@[(v[i] % 16) as int]
                &&& 16 * hex_value(hex_text(v)[2 * i]) + hex_value(hex_text(v)[2 * i + 1])
                    == #[trigger] v[i]
            } by {
            law_hex_digit_table(v[i] / 16);
            law_hex_digit_table(v[i] % 16);
            if i < init.len() {
                assert(init[i] == v[i]);
            } else {
                assert(v[i] == b);
            }
        }
    }
}

/// The producer's content is the nine bytes of "Data for " followed by the
/// UTF-8 of the text of the whole name. Where the name's components are
/// non-empty UTF-8 without '/', that text read as a path gives back every
/// component of the name.
pub proof fn law_answer_content(name: Seq<Seq<u8>>)
    ensures
        answer_content(name).len() >= 9,
        answer_content(name).subrange(0, 9) == seq![
            0x44u8,
            0x61u8,
            0x74u8,
            0x61u8,
            0x20u8,
            0x66u8,
            0x6Fu8,
            0x72u8,
            0x20u8,
        ],
        answer_content(name).subrange(9, answer_content(name).len() as int) == encode_utf8(
            name_text(name),
        ),
        clean_components(name) ==> path_components(
            answer_content(name).subrange(9, answer_content(name).len() as int),
        ) == name,
{
    reveal_strlit("Data for ");
    let p = "Data for "@;
    assert(is_ascii_chars(p));
    is_ascii_chars_encode_utf8(p);
    lemma_encode_utf8_concat(p, name_text(name));
    let a = answer_content(name);
    assert(a.subrange(0, 9) =~= encode_utf8(p));
    assert(encode_utf8(p) =~= seq![
        0x44u8,
        0x61u8,
        0x74u8,
        0x61u8,
        0x20u8,
        0x66u8,
        0x6Fu8,
        0x72u8,
        0x20u8,
    ]);
    assert(a.subrange(9, a.len() as int) =~= encode_utf8(name_text(name)));
    if clean_components(name) {
        law_name_text_roundtrip(name);
    }
}

/// The TLV blocks that fill `s` from `pos` to its end, read one after the
/// other: `None` where a read fails.
pub open spec fn read_blocks(s: Seq<u8>, pos: int) -> Option<Seq<(TlvType, Seq<u8>)>>
    decreases s.len() - pos,
{
    if pos == s.len() {
        Some(seq![])
    } else if 0 <= pos < s.len() {
        let (p, r) = read_tlv(s, pos);
        match r {
            Ok(b) => {
                if pos < p <= s.len() {
                    match read_blocks(s, p) {
                        Some(rest) => Some(seq![b] + rest),
                        None => None,
                    }
                } else {
                    None
                }
            },
            Err(_) => None,
        }
    } else {
        None
    }
}

/// The bytes of TLV blocks laid one after the other.
pub open spec fn blocks_bytes(bs: Seq<(TlvType, Seq<u8>)>) -> Seq<u8>
    decreases bs.len(),
{
    if bs.len() == 0 {
        seq![]
    } else {
        tlv_bytes(bs[0].0.code() as u64, bs[0].1) + blocks_bytes(bs.drop_first())
    }
}

proof fn lemma_blocks_bytes_concat(a: Seq<(TlvType, Seq<u8>)>, b: Seq<(TlvType, Seq<u8>)>)
    ensures
        blocks_bytes(a + b) == blocks_bytes(a) + blocks_bytes(b),
    decreases a.len(),
{
    if a.len() == 0 {
        assert(a + b =~= b);
        assert(blocks_bytes(a) + blocks_bytes(b) =~= blocks_bytes(b));
    } else {
        assert((a + b)[0] == a[0]);
        assert((a + b).drop_first() =~= a.drop_first() + b);
        lemma_blocks_bytes_concat(a.drop_first(), b);
        assert(blocks_bytes(a + b) =~= blocks_bytes(a) + blocks_bytes(b));
    }
}

proof fn lemma_block_bytes(t: TlvType, v: Seq<u8>)
    ensures
        block(t, v).flatten() == blocks_bytes(seq![(t, v)]),
{
    reveal_with_fuel(blocks_bytes, 2);
    let one = seq![(t, v)];
    assert(one.drop_first() =~= Seq::<(TlvType, Seq<u8>)>::empty());
    assert(blocks_bytes(one) =~= tlv_bytes(t.code() as u64, v));
}

proof fn lemma_block_if_bytes(present: bool, t: TlvType, v: Seq<u8>)
    ensures
        block_if(present, t, v).flatten() == blocks_bytes(
            if present {
                seq![(t, v)]
            } else {
                seq![]
            },
        ),
{
    if present {
        lemma_block_bytes(t, v);
    } else {
        assert(Seq::<Seq<u8>>::empty().flatten() =~= Seq::<u8>::empty());
    }
}

proof fn lemma_writes_blocks_concat(
    w1: Seq<Seq<u8>>,
    b1: Seq<(TlvType, Seq<u8>)>,
    w2: Seq<Seq<u8>>,
    b2: Seq<(TlvType, Seq<u8>)>,
)
    requires
        w1.flatten() == blocks_bytes(b1),
        w2.flatten() == blocks_bytes(b2),
    ensures
        (w1 + w2).flatten() == blocks_bytes(b1 + b2),
{
    vstd::seq_lib::lemma_flatten_concat(w1, w2);
    lemma_blocks_bytes_concat(b1, b2);
}

/// Reading the bytes of TLV blocks of known types gives the blocks back.
proof fn lemma_read_blocks(bs: Seq<(TlvType, Seq<u8>)>, s: Seq<u8>, pos: int)
    requires
        0 <= pos <= s.len(),
        s.len() <= usize::MAX,
        s.subrange(pos, s.len() as int) == blocks_bytes(bs),
    ensures
        read_blocks(s, pos) == Some(bs),
    decreases bs.len(),
{
    if bs.len() == 0 {
        assert(s.subrange(pos, s.len() as int).len() == 0);
        assert(bs =~= Seq::<(TlvType, Seq<u8>)>::empty());
    } else {
        let t = bs[0].0;
        let v = bs[0].1;
        let first = tlv_bytes(t.code() as u64, v);
        let k = first.len() as int;
        let all = s.subrange(pos, s.len() as int);
        let rest = blocks_bytes(bs.drop_first());
        assert(all == first + rest);
        lemma_tlv_bytes(t.code() as u64, v);
        assert(v.len() <= k);
        assert(k <= all.len() <= s.len());
        lemma_varint_bytes(t.code() as u64);
        lemma_varint_bytes(v.len() as u64);
        assert(s.subrange(pos, pos + k) =~= first) by {
            assert(s.subrange(pos, pos + k) =~= all.subrange(0, k));
        }
        lemma_read_tlv_bytes(t, v, s, pos);
        assert(s.subrange(pos + k, s.len() as int) =~= blocks_bytes(bs.drop_first())) by {
            assert(s.subrange(pos + k, s.len() as int) =~= all.subrange(k, all.len() as int));
        }
        lemma_read_blocks(bs.drop_first(), s, pos + k);
        assert(seq![(t, v)] + bs.drop_first() =~= bs);
    }
}

proof fn lemma_flatten_seq4(a: Seq<Seq<u8>>, b: Seq<Seq<u8>>, c: Seq<Seq<u8>>, d: Seq<Seq<u8>>)
    ensures
        seq![a, b, c, d].flatten() == a + b + c + d,
{
    let e = Seq::<Seq<Seq<u8>>>::empty();
    assert(e.flatten() =~= Seq::<Seq<u8>>::empty());
    e.lemma_flatten_push(a);
    e.push(a).lemma_flatten_push(b);
    e.push(a).push(b).lemma_flatten_push(c);
    e.push(a).push(b).push(c).lemma_flatten_push(d);
    assert(seq![a, b, c, d] =~= e.push(a).push(b).push(c).push(d));
    assert(e.push(a).flatten() =~= a);
    assert(e.push(a).push(b).push(c).push(d).flatten() =~= a + b + c + d);
}

/// What goes inside a Data block after its Name block, in order: an empty
/// MetaInfo block where the packet has MetaInfo, a Content block holding the
/// content where the content is not empty, and a SignatureInfo block and a
/// SignatureValue block where the packet is signed.
pub open spec fn data_field_blocks(d: DataView) -> Seq<(TlvType, Seq<u8>)> {
    let meta: Seq<(TlvType, Seq<u8>)> = if d.meta_info is Some {
        seq![(TlvType::MetaInfo, Seq::<u8>::empty())]
    } else {
        seq![]
    };
    let content: Seq<(TlvType, Seq<u8>)> = if d.content.len() > 0 {
        seq![(TlvType::Content, d.content)]
    } else {
        seq![]
    };
    let sig: Seq<(TlvType, Seq<u8>)> = match d.signature {
        Some(g) => seq![
            (TlvType::SignatureInfo, g.signature_info),
            (TlvType::SignatureValue, g.signature_value),
        ],
        None => seq![],
    };
    meta + content + sig
}

proof fn lemma_data_content_blocks(d: DataView, cb: Seq<u8>)
    ensures
        data_steps(d, block(TlvType::Name, cb)).flatten().flatten() == blocks_bytes(
            seq![(TlvType::Name, cb)] + data_field_blocks(d),
        ),
{
    let nw = block(TlvType::Name, cb);
    let m = block_if(d.meta_info is Some, TlvType::MetaInfo, seq![]);
    let c = block_if(d.content.len() > 0, TlvType::Content, d.content);
    let g = match d.signature {
        Some(sig) => signature_writes(sig),
        None => seq![],
    };
    let steps = data_steps(d, nw);
    assert(steps == seq![nw, m, c, g]);
    let flat = steps.flatten();
    lemma_flatten_seq4(nw, m, c, g);
    assert(flat =~= nw + m + c + g);
    let content = flat.flatten();
    vstd::seq_lib::lemma_flatten_concat(nw + m + c, g);
    vstd::seq_lib::lemma_flatten_concat(nw + m, c);
    vstd::seq_lib::lemma_flatten_concat(nw, m);
    let nb = seq![(TlvType::Name, cb)];
    let mb: Seq<(TlvType, Seq<u8>)> = if d.meta_info is Some {
        seq![(TlvType::MetaInfo, Seq::<u8>::empty())]
    } else {
        seq![]
    };
    let ctb: Seq<(TlvType, Seq<u8>)> = if d.content.len() > 0 {
        seq![(TlvType::Content, d.content)]
    } else {
        seq![]
    };
    let gb: Seq<(TlvType, Seq<u8>)> = match d.signature {
        Some(sig) => seq![
            (TlvType::SignatureInfo, sig.signature_info),
            (TlvType::SignatureValue, sig.signature_value),
        ],
        None => seq![],
    };
    lemma_block_bytes(TlvType::Name, cb);
    lemma_block_if_bytes(d.meta_info is Some, TlvType::MetaInfo, seq![]);
    assert(seq![].flatten() =~= Seq::<u8>::empty());
    assert(m.flatten() == blocks_bytes(mb));
    lemma_block_if_bytes(d.content.len() > 0, TlvType::Content, d.content);
    match d.signature {
        Some(sig) => {
            let wi = block(TlvType::SignatureInfo, sig.signature_info);
            let wv = block(TlvType::SignatureValue, sig.signature_value);
            vstd::seq_lib::lemma_flatten_concat(wi, wv);
            lemma_block_bytes(TlvType::SignatureInfo, sig.signature_info);
            lemma_block_bytes(TlvType::SignatureValue, sig.signature_value);
            lemma_blocks_bytes_concat(
                seq![(TlvType::SignatureInfo, sig.signature_info)],
                seq![(TlvType::SignatureValue, sig.signature_value)],
            );
            assert(seq![(TlvType::SignatureInfo, sig.signature_info)] + seq![
                (TlvType::SignatureValue, sig.signature_value),
            ] =~= gb);
        },
        None => {
            assert(Seq::<Seq<u8>>::empty().flatten() =~= Seq::<u8>::empty());
            reveal_with_fuel(blocks_bytes, 1);
        },
    }
    assert(g.flatten() == blocks_bytes(gb));
    let fields = data_field_blocks(d);
    assert(fields == mb + ctb + gb);
    lemma_blocks_bytes_concat(mb + ctb, gb);
    lemma_blocks_bytes_concat(mb, ctb);
    lemma_blocks_bytes_concat(nb, fields);
    assert(content =~= blocks_bytes(nb + fields));
}

/// What `Data::encode_tlv` wrote is one Data block, with nothing after it.
/// Read one after the other, the blocks inside it are the Name block, which
/// reads back as the packet's name, and then `data_field_blocks`: in
/// particular, wherever the content is not empty, a Content block that holds
/// exactly the content, whether or not there is MetaInfo or a signature.
pub proof fn law_data_encoding_blocks(pre: WriteState, post: WriteState, d: DataView)
    requires
        pre.well_formed(),
        data_plan(d) is Ok,
        performs(pre, post, data_plan(d)->Ok_0, Ok(())),
    ensures
        ({
            let s = post.bytes.subrange(pre.pos, post.pos);
            let inner = read_tlv(s, 0).1->Ok_0.1;
            let bs = read_blocks(inner, 0)->Some_0;
            &&& read_tlv(s, 0).0 == s.len()
            &&& read_tlv(s, 0).1 is Ok
            &&& read_tlv(s, 0).1->Ok_0.0 == TlvType::Data
            &&& read_blocks(inner, 0) is Some
            &&& bs.len() >= 1
            &&& bs[0].0 == TlvType::Name
            &&& read_components(bs[0].1, 0) == Ok::<Seq<Seq<u8>>, NdnError>(d.name)
            &&& bs.drop_first() == data_field_blocks(d)
            &&& d.content.len() > 0 ==> exists|k: int|
                0 < k < bs.len() && #[trigger] bs[k] == (TlvType::Content, d.content)
        }),
{
    let cw = components_writes(d.name);
    let cb = cw.flatten();
    let st0 = WriteState { bytes: fresh_scratch(), pos: 0 };
    lemma_run_writes_ok(st0, cw);
    let nw = block(TlvType::Name, cb);
    assert(name_plan(d.name) == Ok::<Seq<Seq<u8>>, NdnError>(nw));
    let steps = data_steps(d, nw);
    let flat = steps.flatten();
    lemma_run_writes_ok(st0, flat);
    let content = flat.flatten();
    assert(data_plan(d) == Ok::<Seq<Seq<u8>>, NdnError>(block(TlvType::Data, content)));
    law_tlv_roundtrip_written(pre, post, TlvType::Data, content);
    lemma_data_content_blocks(d, cb);
    let nb = seq![(TlvType::Name, cb)];
    let fields = data_field_blocks(d);
    let allb = nb + fields;
    assert(content.subrange(0, content.len() as int) =~= content);
    lemma_read_blocks(allb, content, 0);
    assert(allb[0] == (TlvType::Name, cb));
    assert(allb.drop_first() =~= fields);
    assert(cb.subrange(0, cb.len() as int) =~= cb);
    lemma_read_components_of(d.name, cb, 0);
    if d.content.len() > 0 {
        let k: int = if d.meta_info is Some {
            2
        } else {
            1
        };
        assert(allb[k] == (TlvType::Content, d.content));
    }
}

/// The four bytes of a 32-bit number, most significant first.
pub open spec fn big_endian_u32(n: u32) -> Seq<u8> {
    seq![
        (n / 0x100_0000) as u8,
        (n / 0x1_0000 % 0x100) as u8,
        (n / 0x100 % 0x100) as u8,
        (n % 0x100) as u8,
    ]
}

proof fn lemma_be32_digits(n: u32)
    ensures
        crate::wire::be32(n) == big_endian_u32(n),
{
    assert((n >> 24u32) as u8 == (n / 0x100_0000) as u8) by (bit_vector);
    assert((n >> 16u32) as u8 == (n / 0x1_0000 % 0x100) as u8) by (bit_vector);
    assert((n >> 8u32) as u8 == (n / 0x100 % 0x100) as u8) by (bit_vector);
    assert(n as u8 == (n % 0x100) as u8) by (bit_vector);
    assert(crate::wire::be32(n) =~= big_endian_u32(n));
}

proof fn lemma_u32_field_bytes(t: TlvType, v: Option<u32>)
    ensures
        u32_field(t, v).flatten() == blocks_bytes(
            match v {
                Some(n) => seq![(t, big_endian_u32(n))],
                None => seq![],
            },
        ),
{
    match v {
        Some(n) => {
            lemma_be32_digits(n);
            lemma_block_bytes(t, big_endian_u32(n));
        },
        None => {
            assert(Seq::<Seq<u8>>::empty().flatten() =~= Seq::<u8>::empty());
        },
    }
}

proof fn lemma_flatten_seq6(
    a: Seq<Seq<u8>>,
    b: Seq<Seq<u8>>,
    c: Seq<Seq<u8>>,
    d: Seq<Seq<u8>>,
    e: Seq<Seq<u8>>,
    f: Seq<Seq<u8>>,
)
    ensures
        seq![a, b, c, d, e, f].flatten() == a + b + c + d + e + f,
{
    let z = Seq::<Seq<Seq<u8>>>::empty();
    assert(z.flatten() =~= Seq::<Seq<u8>>::empty());
    z.lemma_flatten_push(a);
    z.push(a).lemma_flatten_push(b);
    z.push(a).push(b).lemma_flatten_push(c);
    z.push(a).push(b).push(c).lemma_flatten_push(d);
    z.push(a).push(b).push(c).push(d).lemma_flatten_push(e);
    z.push(a).push(b).push(c).push(d).push(e).lemma_flatten_push(f);
    assert(seq![a, b, c, d, e, f] =~= z.push(a).push(b).push(c).push(d).push(e).push(f));
    assert(z.push(a).flatten() =~= a);
    assert(z.push(a).push(b).push(c).push(d).push(e).push(f).flatten() =~= a + b + c + d + e
        + f);
}

/// What goes inside an Interest block after its Name block, in order: an empty
/// CanBePrefix block where it is set, an empty MustBeFresh block where it is
/// set, a Nonce block and an InterestLifetime block holding the four bytes of
/// the number, most significant first, where there is one, and a HopLimit
/// block holding its one byte where there is one.
pub open spec fn interest_field_blocks(i: InterestView) -> Seq<(TlvType, Seq<u8>)> {
    let cbp: Seq<(TlvType, Seq<u8>)> = if i.can_be_prefix {
        seq![(TlvType::CanBePrefix, Seq::<u8>::empty())]
    } else {
        seq![]
    };
    let mbf: Seq<(TlvType, Seq<u8>)> = if i.must_be_fresh {
        seq![(TlvType::MustBeFresh, Seq::<u8>::empty())]
    } else {
        seq![]
    };
    let nonce: Seq<(TlvType, Seq<u8>)> = match i.nonce {
        Some(n) => seq![(TlvType::Nonce, big_endian_u32(n))],
        None => seq![],
    };
    let lifetime: Seq<(TlvType, Seq<u8>)> = match i.interest_lifetime {
        Some(l) => seq![(TlvType::InterestLifetime, big_endian_u32(l))],
        None => seq![],
    };
    let hop: Seq<(TlvType, Seq<u8>)> = match i.hop_limit {
        Some(h) => seq![(TlvType::HopLimit, seq![h])],
        None => seq![],
    };
    cbp + mbf + nonce + lifetime + hop
}

proof fn lemma_interest_content_blocks(i: InterestView, cb: Seq<u8>)
    ensures
        interest_steps(i, block(TlvType::Name, cb)).flatten().flatten() == blocks_bytes(
            seq![(TlvType::Name, cb)] + interest_field_blocks(i),
        ),
{
    let nw = block(TlvType::Name, cb);
    let w1 = block_if(i.can_be_prefix, TlvType::CanBePrefix, seq![]);
    let w2 = block_if(i.must_be_fresh, TlvType::MustBeFresh, seq![]);
    let w3 = u32_field(TlvType::Nonce, i.nonce);
    let w4 = u32_field(TlvType::InterestLifetime, i.interest_lifetime);
    let w5 = match i.hop_limit {
        Some(h) => block(TlvType::HopLimit, seq![h]),
        None => seq![],
    };
    let steps = interest_steps(i, nw);
    assert(steps == seq![nw, w1, w2, w3, w4, w5]);
    lemma_flatten_seq6(nw, w1, w2, w3, w4, w5);
    let content = steps.flatten().flatten();
    let nb = seq![(TlvType::Name, cb)];
    let b1: Seq<(TlvType, Seq<u8>)> = if i.can_be_prefix {
        seq![(TlvType::CanBePrefix, Seq::<u8>::empty())]
    } else {
        seq![]
    };
    let b2: Seq<(TlvType, Seq<u8>)> = if i.must_be_fresh {
        seq![(TlvType::MustBeFresh, Seq::<u8>::empty())]
    } else {
        seq![]
    };
    let b3: Seq<(TlvType, Seq<u8>)> = match i.nonce {
        Some(n) => seq![(TlvType::Nonce, big_endian_u32(n))],
        None => seq![],
    };
    let b4: Seq<(TlvType, Seq<u8>)> = match i.interest_lifetime {
        Some(l) => seq![(TlvType::InterestLifetime, big_endian_u32(l))],
        None => seq![],
    };
    let b5: Seq<(TlvType, Seq<u8>)> = match i.hop_limit {
        Some(h) => seq![(TlvType::HopLimit, seq![h])],
        None => seq![],
    };
    lemma_block_bytes(TlvType::Name, cb);
    lemma_block_if_bytes(i.can_be_prefix, TlvType::CanBePrefix, seq![]);
    lemma_block_if_bytes(i.must_be_fresh, TlvType::MustBeFresh, seq![]);
    assert(seq![].flatten() =~= Seq::<u8>::empty());
    assert(w1.flatten() == blocks_bytes(b1));
    assert(w2.flatten() == blocks_bytes(b2));
    lemma_u32_field_bytes(TlvType::Nonce, i.nonce);
    lemma_u32_field_bytes(TlvType::InterestLifetime, i.interest_lifetime);
    match i.hop_limit {
        Some(h) => {
            lemma_block_bytes(TlvType::HopLimit, seq![h]);
        },
        None => {
            assert(Seq::<Seq<u8>>::empty().flatten() =~= Seq::<u8>::empty());
        },
    }
    assert(w5.flatten() == blocks_bytes(b5));
    lemma_writes_blocks_concat(nw, nb, w1, b1);
    lemma_writes_blocks_concat(nw + w1, nb + b1, w2, b2);
    lemma_writes_blocks_concat(nw + w1 + w2, nb + b1 + b2, w3, b3);
    lemma_writes_blocks_concat(nw + w1 + w2 + w3, nb + b1 + b2 + b3, w4, b4);
    lemma_writes_blocks_concat(nw + w1 + w2 + w3 + w4, nb + b1 + b2 + b3 + b4, w5, b5);
    assert(nb + interest_field_blocks(i) =~= nb + b1 + b2 + b3 + b4 + b5);
}

/// What `Interest::encode_tlv` wrote is one Interest block, with nothing after
/// it. Read one after the other, the blocks inside it are the Name block, which
/// reads back as the Interest's name, and then `interest_field_blocks`: in
/// particular, wherever there is an InterestLifetime, a block that holds its
/// four bytes, whatever the other fields are.
#[verifier::rlimit(30)]
pub proof fn law_interest_encoding_blocks(pre: WriteState, post: WriteState, i: InterestView)
    requires
        pre.well_formed(),
        interest_plan(i) is Ok,
        performs(pre, post, interest_plan(i)->Ok_0, Ok(())),
    ensures
        ({
            let s = post.bytes.subrange(pre.pos, post.pos);
            let inner = read_tlv(s, 0).1->Ok_0.1;
            let bs = read_blocks(inner, 0)->Some_0;
            &&& read_tlv(s, 0).0 == s.len()
            &&& read_tlv(s, 0).1 is Ok
            &&& read_tlv(s, 0).1->Ok_0.0 == TlvType::Interest
            &&& read_blocks(inner, 0) is Some
            &&& bs.len() >= 1
            &&& bs[0].0 == TlvType::Name
            &&& read_components(bs[0].1, 0) == Ok::<Seq<Seq<u8>>, NdnError>(i.name)
            &&& bs.drop_first() == interest_field_blocks(i)
            &&& i.interest_lifetime matches Some(l) ==> exists|k: int|
                0 < k < bs.len() && #[trigger] bs[k] == (
                    TlvType::InterestLifetime,
                    big_endian_u32(l),
                )
        }),
{
    let cw = components_writes(i.name);
    let cb = cw.flatten();
    let st0 = WriteState { bytes: fresh_scratch(), pos: 0 };
    lemma_run_writes_ok(st0, cw);
    let nw = block(TlvType::Name, cb);
    assert(name_plan(i.name) == Ok::<Seq<Seq<u8>>, NdnError>(nw));
    let flat = interest_steps(i, nw).flatten();
    lemma_run_writes_ok(st0, flat);
    let content = flat.flatten();
    assert(interest_plan(i) == Ok::<Seq<Seq<u8>>, NdnError>(block(TlvType::Interest, content)));
    law_tlv_roundtrip_written(pre, post, TlvType::Interest, content);
    lemma_interest_content_blocks(i, cb);
    let nb = seq![(TlvType::Name, cb)];
    let fields = interest_field_blocks(i);
    let allb = nb + fields;
    assert(content.subrange(0, content.len() as int) =~= content);
    lemma_read_blocks(allb, content, 0);
    assert(allb[0] == (TlvType::Name, cb));
    assert(allb.drop_first() =~= fields);
    assert(cb.subrange(0, cb.len() as int) =~= cb);
    lemma_read_components_of(i.name, cb, 0);
    if let Some(l) = i.interest_lifetime {
        let k: int = 1 + (if i.can_be_prefix {
            1int
        } else {
            0
        }) + (if i.must_be_fresh {
            1int
        } else {
            0
        }) + (if i.nonce is Some {
            1int
        } else {
            0
        });
        assert(allb[k] == (TlvType::InterestLifetime, big_endian_u32(l)));
    }
}

/// One GenericNameComponent block for each component of a name, in order.
pub open spec fn component_blocks(name: Seq<Seq<u8>>) -> Seq<(TlvType, Seq<u8>)> {
    Seq::new(name.len(), |i: int| (TlvType::GenericNameComponent, name[i]))
}

proof fn lemma_component_blocks_bytes(name: Seq<Seq<u8>>)
    ensures
        components_writes(name).flatten() == blocks_bytes(component_blocks(name)),
    decreases name.len(),
{
    if name.len() == 0 {
        assert(component_blocks(name) =~= Seq::<(TlvType, Seq<u8>)>::empty());
        assert(Seq::<Seq<u8>>::empty().flatten() =~= Seq::<u8>::empty());
    } else {
        let init = name.drop_last();
        let last = name.last();
        lemma_component_blocks_bytes(init);
        lemma_block_bytes(TlvType::GenericNameComponent, last);
        lemma_writes_blocks_concat(
            components_writes(init),
            component_blocks(init),
            block(TlvType::GenericNameComponent, last),
            seq![(TlvType::GenericNameComponent, last)],
        );
        assert(component_blocks(name) =~= component_blocks(init) + seq![
            (TlvType::GenericNameComponent, last),
        ]);
    }
}

/// Encoding a Data packet goes through exactly when the blocks of its name's
/// components fit in a scratch buffer of `SCRATCH_LEN` bytes, and so do the
/// blocks that go inside the Data block. It then writes one Data block around
/// those blocks: the Name block and then `data_field_blocks`.
pub proof fn law_data_encoding_fits(d: DataView)
    ensures
        ({
            let names = blocks_bytes(component_blocks(d.name));
            let inner = blocks_bytes(seq![(TlvType::Name, names)] + data_field_blocks(d));
            &&& data_plan(d) is Ok <==> (names.len() <= SCRATCH_LEN && inner.len() <= SCRATCH_LEN)
            &&& data_plan(d) is Ok ==> data_plan(d)->Ok_0.flatten() == tlv_bytes(
                TlvType::Data.code() as u64,
                inner,
            )
        }),
{
    let cw = components_writes(d.name);
    let st0 = WriteState { bytes: fresh_scratch(), pos: 0 };
    assert(st0.bytes.len() == SCRATCH_LEN);
    lemma_run_writes_ok(st0, cw);
    lemma_component_blocks_bytes(d.name);
    let cb = cw.flatten();
    if cb.len() <= SCRATCH_LEN {
        let nw = block(TlvType::Name, cb);
        assert(name_plan(d.name) == Ok::<Seq<Seq<u8>>, NdnError>(nw));
        let flat = data_steps(d, nw).flatten();
        lemma_run_writes_ok(st0, flat);
        lemma_data_content_blocks(d, cb);
    }
}

/// Encoding an Interest goes through exactly when the blocks of its name's
/// components fit in a scratch buffer of `SCRATCH_LEN` bytes, and so do the
/// blocks that go inside the Interest block. It then writes one Interest block
/// around those blocks: the Name block and then `interest_field_blocks`.
pub proof fn law_interest_encoding_fits(i: InterestView)
    ensures
        ({
            let names = blocks_bytes(component_blocks(i.name));
            let inner = blocks_bytes(seq![(TlvType::Name, names)] + interest_field_blocks(i));
            &&& interest_plan(i) is Ok <==> (names.len() <= SCRATCH_LEN && inner.len()
                <= SCRATCH_LEN)
            &&& interest_plan(i) is Ok ==> interest_plan(i)->Ok_0.flatten() == tlv_bytes(
                TlvType::Interest.code() as u64,
                inner,
            )
        }),
{
    let cw = components_writes(i.name);
    let st0 = WriteState { bytes: fresh_scratch(), pos: 0 };
    assert(st0.bytes.len() == SCRATCH_LEN);
    lemma_run_writes_ok(st0, cw);
    lemma_component_blocks_bytes(i.name);
    let cb = cw.flatten();
    if cb.len() <= SCRATCH_LEN {
        let nw = block(TlvType::Name, cb);
        assert(name_plan(i.name) == Ok::<Seq<Seq<u8>>, NdnError>(nw));
        let flat = interest_steps(i, nw).flatten();
        lemma_run_writes_ok(st0, flat);
        lemma_interest_content_blocks(i, cb);
    }
}

/// Encoding a name goes through exactly when the blocks of its components fit
/// in a scratch buffer of `SCRATCH_LEN` bytes; it then writes one Name block
/// around them.
pub proof fn law_name_encoding_fits(name: Seq<Seq<u8>>)
    ensures
        ({
            let names = blocks_bytes(component_blocks(name));
            &&& name_plan(name) is Ok <==> names.len() <= SCRATCH_LEN
            &&& name_plan(name) is Ok ==> name_plan(name)->Ok_0.flatten() == tlv_bytes(
                TlvType::Name.code() as u64,
                names,
            )
        }),
{
    let st0 = WriteState { bytes: fresh_scratch(), pos: 0 };
    assert(st0.bytes.len() == SCRATCH_LEN);
    lemma_run_writes_ok(st0, components_writes(name));
    lemma_component_blocks_bytes(name);
}

/// The text of a name is the texts of its parts one after the other: one
/// component reads as '/' and then the component's text, and the text of two
/// names put together is the first name's text followed by the second's.
pub proof fn law_name_text_parts(a: Seq<Seq<u8>>, b: Seq<Seq<u8>>, c: Seq<u8>)
    ensures
        name_text(seq![c]) == seq!['/'] + component_text(c),
        a.len() > 0 && b.len() > 0 ==> name_text(a + b) == name_text(a) + name_text(b),
        name_text(Seq::<Seq<u8>>::empty()) == seq!['/'],
{
    lemma_components_text_concat(a, b);
    let one = seq![c];
    assert(one.drop_last() =~= Seq::<Seq<u8>>::empty());
    assert(components_text(one.drop_last()) =~= Seq::<char>::empty());
    assert(components_text(one) =~= seq!['/'] + component_text(c));
}

proof fn lemma_components_text_concat(a: Seq<Seq<u8>>, b: Seq<Seq<u8>>)
    ensures
        components_text(a + b) == components_text(a) + components_text(b),
    decreases b.len(),
{
    if b.len() == 0 {
        assert(a + b =~= a);
        assert(components_text(a) + components_text(b) =~= components_text(a));
    } else {
        assert((a + b).drop_last() =~= a + b.drop_last());
        assert((a + b).last() == b.last());
        lemma_components_text_concat(a, b.drop_last());
        assert(components_text(a + b) =~= components_text(a) + components_text(b));
    }
}

/// A packet reads as "Interest" or "Data", after its kind, then the text of its
/// name between round brackets.
pub proof fn law_packet_text(p: NdnPacket)
    ensures
        packet_text(p) == (if p is Interest {
            seq!['I', 'n', 't', 'e', 'r', 'e', 's', 't', '(']
        } else {
            seq!['D', 'a', 't', 'a', '(']
        }) + name_text(packet_name(p)) + seq![')'],
{
    reveal_strlit("Interest(");
    reveal_strlit("Data(");
    reveal_strlit(")");
    assert("Interest("@ =~= seq!['I', 'n', 't', 'e', 'r', 'e', 's', 't', '(']);
    assert("Data("@ =~= seq!['D', 'a', 't', 'a', '(']);
    assert(")"@ =~= seq![')']);
}

/// The fast path tells packets apart by size and then by their first byte: an
/// empty packet, a one-byte packet, an Interest (first byte 0x05), a Data
/// packet (first byte 0x06), or anything else.
pub proof fn law_packet_kind(p: Seq<u8>)
    ensures
        (kind_of(p) == PacketKind::Empty) <==> p.len() == 0,
        (kind_of(p) == PacketKind::TooShort) <==> p.len() == 1,
        (kind_of(p) == PacketKind::Interest) <==> (p.len() >= 2 && p[0] == 0x05u8),
        (kind_of(p) == PacketKind::Data) <==> (p.len() >= 2 && p[0] == 0x06u8),
        (kind_of(p) == PacketKind::Other) <==> (p.len() >= 2 && p[0] != 0x05u8 && p[0]
            != 0x06u8),
{
}

} // verus!
