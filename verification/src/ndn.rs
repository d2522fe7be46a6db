//! NDN names and packets, and their TLV encodings.
use vstd::prelude::*;
use vstd::slice::slice_to_vec;
use vstd::string::StringExecFns;
use vstd::utf8::encode_utf8;

use crate::error::NdnError;
use crate::text::{name_text, component_text, components_text, push_component_text};
use crate::tlv::{TlvDecoder, TlvEncoder, TlvType};
use crate::wire::{
    lemma_performs_first, lemma_performs_then, lemma_read_tlv_moves, lemma_run_writes_ok,
    performs, read_tlv, run_writes, tlv_writes, WriteState,
};

verus! {

// ---------------------------------------------------------------------------
// The encodings, as runs of writes
// ---------------------------------------------------------------------------

/// The size of the scratch buffer into which the inner part of a block is
/// encoded before the block itself is written.
pub const SCRATCH_LEN: usize = 1024;

/// A fresh scratch buffer.
pub open spec fn fresh_scratch() -> Seq<u8> {
    Seq::new(SCRATCH_LEN as nat, |i: int| 0u8)
}

/// Encoding `writes` into a fresh scratch buffer: the bytes written, or the
/// error of the first write that did not fit.
pub open spec fn scratch_encode(writes: Seq<Seq<u8>>) -> Result<Seq<u8>, NdnError> {
    match run_writes(WriteState { bytes: fresh_scratch(), pos: 0 }, writes).1 {
        Some(e) => Err(e),
        None => Ok(writes.flatten()),
    }
}

/// An operation that left encoder `pre` as `post` with result `r` carried out
/// `plan`: a run of writes, or an error found before anything was written.
pub open spec fn performs_plan(
    pre: WriteState,
    post: WriteState,
    plan: Result<Seq<Seq<u8>>, NdnError>,
    r: Result<(), NdnError>,
) -> bool {
    match plan {
        Ok(writes) => performs(pre, post, writes, r),
        Err(e) => post == pre && r == Err::<(), NdnError>(e),
    }
}

/// The writes of a TLV block of type `t` with value `value`.
pub open spec fn block(t: TlvType, value: Seq<u8>) -> Seq<Seq<u8>> {
    tlv_writes(t.code() as u64, value)
}

/// The writes of `t`'s block where `present`, nothing otherwise.
pub open spec fn block_if(present: bool, t: TlvType, value: Seq<u8>) -> Seq<Seq<u8>> {
    if present {
        block(t, value)
    } else {
        seq![]
    }
}

/// The writes of the components of a name, one GenericNameComponent block each.
pub open spec fn components_writes(name: Seq<Seq<u8>>) -> Seq<Seq<u8>>
    decreases name.len(),
{
    if name.len() == 0 {
        seq![]
    } else {
        components_writes(name.drop_last()) + block(TlvType::GenericNameComponent, name.last())
    }
}

/// What encoding a name does: a Name block around its components, which are
/// first encoded into a scratch buffer.
pub open spec fn name_plan(name: Seq<Seq<u8>>) -> Result<Seq<Seq<u8>>, NdnError> {
    match scratch_encode(components_writes(name)) {
        Err(e) => Err(e),
        Ok(content) => Ok(block(TlvType::Name, content)),
    }
}

/// Concatenating names concatenates their component writes.
pub proof fn lemma_components_writes_concat(a: Seq<Seq<u8>>, b: Seq<Seq<u8>>)
    ensures
        components_writes(a + b) == components_writes(a) + components_writes(b),
    decreases b.len(),
{
    if b.len() == 0 {
        assert(a + b =~= a);
        assert(components_writes(a) + components_writes(b) =~= components_writes(a));
    } else {
        assert((a + b).drop_last() =~= a + b.drop_last());
        assert((a + b).last() == b.last());
        lemma_components_writes_concat(a, b.drop_last());
        assert(components_writes(a + b) =~= components_writes(a) + components_writes(b));
    }
}

/// Where a scratch run went through, the scratch holds its bytes at the front.
proof fn lemma_scratch_ok(writes: Seq<Seq<u8>>, post: WriteState)
    requires
        run_writes(WriteState { bytes: fresh_scratch(), pos: 0 }, writes) == (
            post,
            Option::<NdnError>::None,
        ),
    ensures
        scratch_encode(writes) == Ok::<Seq<u8>, NdnError>(post.bytes.subrange(0, post.pos)),
        post.bytes.len() == SCRATCH_LEN,
{
    let st0 = WriteState { bytes: fresh_scratch(), pos: 0 };
    lemma_run_writes_ok(st0, writes);
    assert(post.bytes.subrange(0, post.pos) =~= writes.flatten());
}

/// A fresh scratch buffer.
fn new_scratch() -> (v: Vec<u8>)
    ensures
        v@ == fresh_scratch(),
{
    let mut v: Vec<u8> = Vec::new();
    let mut i: usize = 0;
    while i < SCRATCH_LEN
        invariant
            i <= SCRATCH_LEN,
            v@ == Seq::new(i as nat, |j: int| 0u8),
        decreases SCRATCH_LEN - i,
    {
        v.push(0u8);
        i = i + 1;
        proof {
            assert(v@ =~= Seq::new(i as nat, |j: int| 0u8));
        }
    }
    v
}

/// Whether two byte strings are equal.
fn bytes_eq(a: &[u8], b: &[u8]) -> (r: bool)
    ensures
        r == (a@ == b@),
{
    if a.len() != b.len() {
        return false;
    }
    let n = a.len();
    let mut i: usize = 0;
    while i < n
        invariant
            0 <= i <= n,
            n == a@.len(),
            n == b@.len(),
            a@.subrange(0, i as int) == b@.subrange(0, i as int),
        decreases n - i,
    {
        if a[i] != b[i] {
            proof {
                assert(a@[i as int] != b@[i as int]);
            }
            return false;
        }
        i = i + 1;
        proof {
            assert(a@.subrange(0, i as int) =~= a@.subrange(0, i - 1) + seq![a@[i - 1]]);
            assert(b@.subrange(0, i as int) =~= b@.subrange(0, i - 1) + seq![b@[i - 1]]);
        }
    }
    proof {
        assert(a@ =~= a@.subrange(0, n as int));
        assert(b@ =~= b@.subrange(0, n as int));
    }
    true
}

// ---------------------------------------------------------------------------
// Reading names back
// ---------------------------------------------------------------------------

/// Reading a name component block at `pos`: the position after it and the component.
pub open spec fn read_component(s: Seq<u8>, pos: int) -> (int, Result<Seq<u8>, NdnError>) {
    let (p, r) = read_tlv(s, pos);
    match r {
        Err(e) => (p, Err(e)),
        Ok((t, v)) => if t == TlvType::GenericNameComponent {
            (p, Ok(v))
        } else {
            (p, Err(NdnError::InvalidPacket { message: "Expected GenericNameComponent TLV" }))
        },
    }
}

/// Reading name component blocks from `pos` to the end of `s`.
/// (A read that goes through always moves forward within `s`, so the last
/// branch is never taken.)
pub open spec fn read_components(s: Seq<u8>, pos: int) -> Result<Seq<Seq<u8>>, NdnError>
    decreases s.len() - pos,
{
    if pos >= s.len() {
        Ok(seq![])
    } else {
        let (p, r) = read_component(s, pos);
        match r {
            Err(e) => Err(e),
            Ok(c) => if pos < p <= s.len() {
                match read_components(s, p) {
                    Err(e) => Err(e),
                    Ok(rest) => Ok(seq![c] + rest),
                }
            } else {
                Ok(seq![c])
            },
        }
    }
}

/// Reading a Name block at `pos`: the position after it and the name.
pub open spec fn read_name(s: Seq<u8>, pos: int) -> (int, Result<Seq<Seq<u8>>, NdnError>) {
    let (p, r) = read_tlv(s, pos);
    match r {
        Err(e) => (p, Err(e)),
        Ok((t, v)) => if t == TlvType::Name {
            (p, read_components(v, 0))
        } else {
            (p, Err(NdnError::InvalidPacket { message: "Expected Name TLV" }))
        },
    }
}

/// `prefix` put in front of what `r` read, if it read anything.
pub open spec fn prepend_read(prefix: Seq<Seq<u8>>, r: Result<Seq<Seq<u8>>, NdnError>) -> Result<
    Seq<Seq<u8>>,
    NdnError,
> {
    match r {
        Ok(rest) => Ok(prefix + rest),
        Err(e) => Err(e),
    }
}

// ---------------------------------------------------------------------------
// Splitting a path into components
// ---------------------------------------------------------------------------

/// Going through `bytes`, the components finished so far and the one being read.
pub open spec fn split_state(bytes: Seq<u8>) -> (Seq<Seq<u8>>, Seq<u8>)
    decreases bytes.len(),
{
    if bytes.len() == 0 {
        (seq![], seq![])
    } else {
        let (done, cur) = split_state(bytes.drop_last());
        if bytes.last() == 0x2Fu8 {
            if cur.len() > 0 {
                (done.push(cur), seq![])
            } else {
                (done, seq![])
            }
        } else {
            (done, cur.push(bytes.last()))
        }
    }
}

/// The non-empty runs of bytes between the '/' separators of `bytes`, in order.
pub open spec fn path_components(bytes: Seq<u8>) -> Seq<Seq<u8>> {
    let (done, cur) = split_state(bytes);
    if cur.len() > 0 {
        done.push(cur)
    } else {
        done
    }
}

// ---------------------------------------------------------------------------
// Name components
// ---------------------------------------------------------------------------

/// One component of an NDN name: a string of bytes.
#[derive(Debug, Clone, PartialEq, Eq, Hash)]
pub struct NameComponent {
    value: Vec<u8>,
}

impl View for NameComponent {
    type V = Seq<u8>;

    closed spec fn view(&self) -> Seq<u8> {
        self.value@
    }
}

impl NameComponent {
    pub fn new(value: &[u8]) -> (c: Self)
        ensures
            c@ == value@,
    {
        NameComponent { value: slice_to_vec(value) }
    }

    pub fn value(&self) -> (r: &[u8])
        ensures
            r@ == self@,
    {
        self.value.as_slice()
    }

    /// A copy of this component.
    pub(crate) fn duplicate(&self) -> (c: Self)
        ensures
            c@ == self@,
    {
        NameComponent { value: slice_to_vec(self.value.as_slice()) }
    }

    /// Encode this component as a GenericNameComponent block.
    pub fn encode_tlv(&self, encoder: &mut TlvEncoder) -> (r: Result<(), NdnError>)
        ensures
            performs(old(encoder)@, final(encoder)@, block(TlvType::GenericNameComponent, self@), r),
    {
        encoder.encode_tlv(TlvType::GenericNameComponent, self.value.as_slice())
    }

    /// Decode a component from a GenericNameComponent block.
    pub fn decode_tlv(decoder: &mut TlvDecoder) -> (r: Result<Self, NdnError>)
        ensures
            final(decoder)@.bytes == old(decoder)@.bytes,
            final(decoder)@.pos <= final(decoder)@.bytes.len(),
            final(decoder)@.pos == read_component(old(decoder)@.bytes, old(decoder)@.pos).0,
            match (r, read_component(old(decoder)@.bytes, old(decoder)@.pos).1) {
                (Ok(c), Ok(v)) => c@ == v,
                (Err(e), Err(se)) => e == se,
                _ => false,
            },
    {
        let (tlv_type, value) = decoder.decode_tlv()?;
        if tlv_type != TlvType::GenericNameComponent {
            return Err(NdnError::invalid_packet("Expected GenericNameComponent TLV"));
        }
        Ok(NameComponent { value: slice_to_vec(value) })
    }

    /// The component as text: itself where it is UTF-8, in lower-case hexadecimal otherwise.
    pub fn to_string(&self) -> (r: String)
        ensures
            r@ == component_text(self@),
    {
        let mut out = String::new();
        push_component_text(&mut out, self.value.as_slice());
        out
    }
}

// ---------------------------------------------------------------------------
// Names
// ---------------------------------------------------------------------------

/// An NDN name: a sequence of components.
#[derive(Debug, Clone, PartialEq, Eq, Hash)]
pub struct Name {
    components: Vec<NameComponent>,
}

impl View for Name {
    type V = Seq<Seq<u8>>;

    closed spec fn view(&self) -> Seq<Seq<u8>> {
        self.components@.map_values(|c: NameComponent| c@)
    }
}

/// Whether `a` is a prefix of `b`, component by component.
pub open spec fn is_prefix(a: Seq<Seq<u8>>, b: Seq<Seq<u8>>) -> bool {
    a.len() <= b.len() && b.subrange(0, a.len() as int) == a
}

impl Name {
    /// Create a name from its text: the non-empty parts between the '/' separators
    /// become the components.
    pub fn new(name: &str) -> (r: Self)
        ensures
            r@ == path_components(encode_utf8(name@)),
    {
        let bytes = name.as_bytes();
        let n = bytes.len();
        let mut components: Vec<NameComponent> = Vec::new();
        let mut cur: Vec<u8> = Vec::new();
        let mut i: usize = 0;
        while i < n
            invariant
                0 <= i <= n,
                n == bytes@.len(),
                bytes@ == encode_utf8(name@),
                split_state(bytes@.subrange(0, i as int)) == (
                    components@.map_values(|c: NameComponent| c@),
                    cur@,
                ),
            decreases n - i,
        {
            let b = bytes[i];
            proof {
                let pre = bytes@.subrange(0, i as int);
                let next = bytes@.subrange(0, i + 1);
                assert(next.drop_last() =~= pre);
                assert(next.last() == b);
            }
            if b == 0x2F {
                if cur.len() > 0 {
                    let ghost old_components = components@;
                    components.push(NameComponent { value: cur });
                    proof {
                        assert(components@.map_values(|c: NameComponent| c@) =~= old_components.map_values(
                            |c: NameComponent| c@,
                        ).push(cur@));
                    }
                    cur = Vec::new();
                } else {
                    cur = Vec::new();
                }
            } else {
                cur.push(b);
            }
            i = i + 1;
        }
        proof {
            assert(bytes@.subrange(0, n as int) =~= bytes@);
        }
        if cur.len() > 0 {
            let ghost old_components = components@;
            components.push(NameComponent { value: cur });
            proof {
                assert(components@.map_values(|c: NameComponent| c@) =~= old_components.map_values(
                    |c: NameComponent| c@,
                ).push(cur@));
            }
        }
        Name { components }
    }

    /// The name with no components.
    pub fn empty() -> (r: Self)
        ensures
            r@ == Seq::<Seq<u8>>::empty(),
    {
        let r = Name { components: Vec::new() };
        proof {
            assert(r@ =~= Seq::<Seq<u8>>::empty());
        }
        r
    }

    /// Add a component at the end of the name.
    pub fn append(&mut self, component: &[u8]) -> (r: &mut Self)
        ensures
            r@ == old(self)@.push(component@),
            final(self)@ == final(r)@,
    {
        let ghost old_components = self.components@;
        self.components.push(NameComponent::new(component));
        proof {
            assert(self@ =~= old_components.map_values(|c: NameComponent| c@).push(component@));
        }
        self
    }

    /// The number of components.
    pub fn len(&self) -> (r: usize)
        ensures
            r == self@.len(),
    {
        self.components.len()
    }

    /// Whether the name has no components.
    pub fn is_empty(&self) -> (r: bool)
        ensures
            r == (self@.len() == 0),
    {
        self.components.len() == 0
    }

    /// The component at `index`, if there is one.
    pub fn get(&self, index: usize) -> (r: Option<&NameComponent>)
        ensures
            r is Some <==> index < self@.len(),
            r matches Some(c) ==> c@ == self@[index as int],
    {
        if index < self.components.len() {
            Some(&self.components[index])
        } else {
            None
        }
    }

    /// All the components, in order.
    pub fn components(&self) -> (r: &[NameComponent])
        ensures
            r@.map_values(|c: NameComponent| c@) == self@,
    {
        self.components.as_slice()
    }

    /// A copy of this name.
    pub(crate) fn duplicate(&self) -> (r: Self)
        ensures
            r@ == self@,
    {
        let n = self.components.len();
        let mut components: Vec<NameComponent> = Vec::new();
        let mut i: usize = 0;
        while i < n
            invariant
                0 <= i <= n,
                n == self.components@.len(),
                components@.map_values(|c: NameComponent| c@) == self@.subrange(0, i as int),
            decreases n - i,
        {
            let ghost old_components = components@;
            let c = self.components[i].duplicate();
            components.push(c);
            proof {
                assert(components@.map_values(|c: NameComponent| c@) =~= old_components.map_values(
                    |c: NameComponent| c@,
                ).push(c@));
                assert(self@.subrange(0, i + 1) =~= self@.subrange(0, i as int).push(self@[i as int]));
            }
            i = i + 1;
        }
        proof {
            assert(self@.subrange(0, n as int) =~= self@);
        }
        Name { components }
    }

    /// Whether this name is a prefix of `other`.
    pub fn is_prefix_of(&self, other: &Name) -> (r: bool)
        ensures
            r == is_prefix(self@, other@),
    {
        if self.components.len() > other.components.len() {
            return false;
        }
        let n = self.components.len();
        let mut i: usize = 0;
        while i < n
            invariant
                0 <= i <= n,
                n == self@.len(),
                n <= other@.len(),
                other@.subrange(0, i as int) == self@.subrange(0, i as int),
            decreases n - i,
        {
            if !bytes_eq(self.components[i].value(), other.components[i].value()) {
                proof {
                    assert(self@[i as int] != other@[i as int]);
                    assert(other@.subrange(0, n as int)[i as int] == other@[i as int]);
                }
                return false;
            }
            i = i + 1;
            proof {
                assert(other@.subrange(0, i as int) =~= self@.subrange(0, i as int));
            }
        }
        proof {
            assert(self@.subrange(0, n as int) =~= self@);
        }
        true
    }

    /// Encode the name as a Name block. The components are first encoded into a
    /// scratch buffer of `SCRATCH_LEN` bytes.
    pub fn encode_tlv(&self, encoder: &mut TlvEncoder) -> (r: Result<(), NdnError>)
        ensures
            performs_plan(old(encoder)@, final(encoder)@, name_plan(self@), r),
    {
        let mut scratch = new_scratch();
        let content = {
            let mut temp = TlvEncoder::new(scratch.as_mut_slice());
            let ghost st0 = temp@;
            let n = self.components.len();
            let mut i: usize = 0;
            while i < n
                invariant
                    0 <= i <= n,
                    n == self@.len(),
                    st0 == (WriteState { bytes: fresh_scratch(), pos: 0 }),
                    run_writes(st0, components_writes(self@.subrange(0, i as int))) == (
                        temp@,
                        Option::<NdnError>::None,
                    ),
                decreases n - i,
            {
                let ghost before = temp@;
                let ghost pre = self@.subrange(0, i as int);
                let ghost c = self@[i as int];
                let ghost post = self@.subrange(i + 1, n as int);
                proof {
                    assert(self@.subrange(0, i + 1).drop_last() =~= pre);
                    assert(self@.subrange(0, i + 1).last() == c);
                }
                let r = self.components[i].encode_tlv(&mut temp);
                proof {
                    lemma_performs_then(
                        st0,
                        before,
                        temp@,
                        components_writes(pre),
                        block(TlvType::GenericNameComponent, c),
                        r,
                    );
                }
                if r.is_err() {
                    proof {
                        let done = components_writes(pre) + block(TlvType::GenericNameComponent, c);
                        lemma_performs_first(st0, done, components_writes(post));
                        lemma_components_writes_concat(self@.subrange(0, i + 1), post);
                        assert(self@.subrange(0, i + 1) + post =~= self@);
                    }
                    return r;
                }
                i = i + 1;
            }
            proof {
                assert(self@.subrange(0, n as int) =~= self@);
                lemma_scratch_ok(components_writes(self@), temp@);
            }
            temp.written()
        };
        encoder.encode_tlv_with_content(TlvType::Name, content.as_slice())
    }

    /// Decode a name from a Name block.
    pub fn decode_tlv(decoder: &mut TlvDecoder) -> (r: Result<Self, NdnError>)
        ensures
            final(decoder)@.bytes == old(decoder)@.bytes,
            final(decoder)@.pos <= final(decoder)@.bytes.len(),
            final(decoder)@.pos == read_name(old(decoder)@.bytes, old(decoder)@.pos).0,
            match (r, read_name(old(decoder)@.bytes, old(decoder)@.pos).1) {
                (Ok(name), Ok(v)) => name@ == v,
                (Err(e), Err(se)) => e == se,
                _ => false,
            },
    {
        let (tlv_type, value) = decoder.decode_tlv()?;
        if tlv_type != TlvType::Name {
            return Err(NdnError::invalid_packet("Expected Name TLV"));
        }
        let mut name_decoder = TlvDecoder::new(value);
        let mut components: Vec<NameComponent> = Vec::new();
        while name_decoder.has_next()
            invariant
                decoder@.bytes == old(decoder)@.bytes,
                decoder@.pos <= decoder@.bytes.len(),
                decoder@.pos == read_tlv(old(decoder)@.bytes, old(decoder)@.pos).0,
                read_tlv(old(decoder)@.bytes, old(decoder)@.pos).1 == Ok::<
                    (TlvType, Seq<u8>),
                    NdnError,
                >((TlvType::Name, value@)),
                name_decoder@.bytes == value@,
                0 <= name_decoder@.pos <= value@.len(),
                read_components(value@, 0) == prepend_read(
                    components@.map_values(|c: NameComponent| c@),
                    read_components(value@, name_decoder@.pos),
                ),
            decreases value@.len() - name_decoder@.pos,
        {
            let ghost pos = name_decoder@.pos;
            proof {
                lemma_read_tlv_moves(value@, pos);
            }
            let component = NameComponent::decode_tlv(&mut name_decoder)?;
            let ghost old_components = components@;
            components.push(component);
            proof {
                assert(components@.map_values(|c: NameComponent| c@) =~= old_components.map_values(
                    |c: NameComponent| c@,
                ) + seq![component@]);
                let rest = read_components(value@, name_decoder@.pos);
                match rest {
                    Ok(cs) => {
                        assert(old_components.map_values(|c: NameComponent| c@) + (seq![component@]
                            + cs) =~= components@.map_values(|c: NameComponent| c@) + cs);
                    },
                    Err(_) => {},
                }
            }
        }
        proof {
            assert(components@.map_values(|c: NameComponent| c@) + Seq::<Seq<u8>>::empty()
                =~= components@.map_values(|c: NameComponent| c@));
        }
        Ok(Name { components })
    }

    /// The name as text: "/" for the empty name, else each component after a '/'.
    pub fn to_string(&self) -> (r: String)
        ensures
            r@ == name_text(self@),
    {
        let mut out = String::new();
        let n = self.components.len();
        if n == 0 {
            proof {
                reveal_strlit("/");
            }
            out.append("/");
            return out;
        }
        let mut i: usize = 0;
        while i < n
            invariant
                0 <= i <= n,
                n == self@.len(),
                out@ == components_text(self@.subrange(0, i as int)),
            decreases n - i,
        {
            proof {
                reveal_strlit("/");
            }
            out.append("/");
            push_component_text(&mut out, self.components[i].value());
            proof {
                let pre = self@.subrange(0, i as int);
                let next = self@.subrange(0, i + 1);
                assert(next.drop_last() =~= pre);
                assert(next.last() == self@[i as int]);
            }
            i = i + 1;
        }
        proof {
            assert(self@.subrange(0, n as int) =~= self@);
        }
        out
    }
}

// ---------------------------------------------------------------------------
// Encoding in steps
// ---------------------------------------------------------------------------

/// Doing step `k` after the steps before it went through.
proof fn lemma_step_ok(
    st0: WriteState,
    steps: Seq<Seq<Seq<u8>>>,
    k: int,
    before: WriteState,
    after: WriteState,
)
    requires
        0 <= k < steps.len(),
        run_writes(st0, steps.take(k).flatten()) == (before, Option::<NdnError>::None),
        performs(before, after, steps[k], Ok(())),
    ensures
        run_writes(st0, steps.take(k + 1).flatten()) == (after, Option::<NdnError>::None),
{
    assert(steps.take(k + 1) =~= steps.take(k).push(steps[k]));
    steps.take(k).lemma_flatten_push(steps[k]);
    lemma_performs_then(st0, before, after, steps.take(k).flatten(), steps[k], Ok(()));
}

/// Step `k` failing, after the steps before it went through, fails the whole run.
proof fn lemma_step_err(
    st0: WriteState,
    steps: Seq<Seq<Seq<u8>>>,
    k: int,
    before: WriteState,
    after: WriteState,
    e: NdnError,
)
    requires
        0 <= k < steps.len(),
        run_writes(st0, steps.take(k).flatten()) == (before, Option::<NdnError>::None),
        performs(before, after, steps[k], Err(e)),
    ensures
        run_writes(st0, steps.flatten()).1 == Some(e),
{
    assert(steps.take(k + 1) =~= steps.take(k).push(steps[k]));
    steps.take(k).lemma_flatten_push(steps[k]);
    lemma_performs_then(st0, before, after, steps.take(k).flatten(), steps[k], Err(e));
    let done = steps.take(k + 1).flatten();
    let rest = steps.skip(k + 1).flatten();
    lemma_performs_first(st0, done, rest);
    assert(steps.take(k + 1) + steps.skip(k + 1) =~= steps);
    vstd::seq_lib::lemma_flatten_concat(steps.take(k + 1), steps.skip(k + 1));
}

/// All the steps went through.
proof fn lemma_steps_done(st0: WriteState, steps: Seq<Seq<Seq<u8>>>, post: WriteState)
    requires
        run_writes(st0, steps.take(steps.len() as int).flatten()) == (
            post,
            Option::<NdnError>::None,
        ),
    ensures
        run_writes(st0, steps.flatten()) == (post, Option::<NdnError>::None),
{
    assert(steps.take(steps.len() as int) =~= steps);
}

/// Doing step `k` after the steps before it went through, whatever came of it.
proof fn lemma_step(
    st0: WriteState,
    steps: Seq<Seq<Seq<u8>>>,
    k: int,
    before: WriteState,
    after: WriteState,
    r: Result<(), NdnError>,
)
    requires
        0 <= k < steps.len(),
        run_writes(st0, steps.take(k).flatten()) == (before, Option::<NdnError>::None),
        performs(before, after, steps[k], r),
    ensures
        r is Ok ==> run_writes(st0, steps.take(k + 1).flatten()) == (
            after,
            Option::<NdnError>::None,
        ),
        r matches Err(e) ==> run_writes(st0, steps.flatten()).1 == Some(e),
{
    match r {
        Ok(_) => lemma_step_ok(st0, steps, k, before, after),
        Err(e) => lemma_step_err(st0, steps, k, before, after, e),
    }
}

/// Writes `t`'s block where `present`, nothing otherwise.
fn put_block_if(encoder: &mut TlvEncoder, present: bool, t: TlvType, value: &[u8]) -> (r: Result<
    (),
    NdnError,
>)
    ensures
        performs(old(encoder)@, final(encoder)@, block_if(present, t, value@), r),
{
    if present {
        encoder.encode_tlv(t, value)
    } else {
        Ok(())
    }
}

/// The big-endian bytes of a 32-bit number.
fn be32_bytes(v: u32) -> (r: Vec<u8>)
    ensures
        r@ == crate::wire::be32(v),
{
    let mut r: Vec<u8> = Vec::new();
    r.push((v >> 24) as u8);
    r.push((v >> 16) as u8);
    r.push((v >> 8) as u8);
    r.push(v as u8);
    proof {
        assert(r@ =~= crate::wire::be32(v));
    }
    r
}

/// The writes of a name's block, where its plan has any.
pub open spec fn name_writes_or_none(name: Seq<Seq<u8>>) -> Seq<Seq<u8>> {
    match name_plan(name) {
        Ok(w) => w,
        Err(_) => seq![],
    }
}

/// Encoding the name as the first step into a scratch encoder that nothing was written to yet.
fn put_name_step(temp: &mut TlvEncoder, name: &Name, steps: Ghost<Seq<Seq<Seq<u8>>>>) -> (r: Result<
    (),
    NdnError,
>)
    requires
        old(temp)@ == (WriteState { bytes: fresh_scratch(), pos: 0 }),
        steps@.len() > 0,
        steps@[0] == name_writes_or_none(name@),
    ensures
        r is Ok ==> name_plan(name@) is Ok && run_writes(old(temp)@, steps@.take(1).flatten()) == (
            final(temp)@,
            Option::<NdnError>::None,
        ),
        r matches Err(e) ==> match name_plan(name@) {
            Err(e2) => e2 == e,
            Ok(_) => run_writes(old(temp)@, steps@.flatten()).1 == Some(e),
        },
{
    let ghost st0 = temp@;
    let r = name.encode_tlv(temp);
    proof {
        assert(steps@.take(0).flatten() =~= Seq::<Seq<u8>>::empty());
        if name_plan(name@) is Ok {
            lemma_step(st0, steps@, 0, st0, temp@, r);
        }
    }
    r
}

// ---------------------------------------------------------------------------
// Interest packets
// ---------------------------------------------------------------------------

/// What an Interest packet is.
pub struct InterestView {
    pub name: Seq<Seq<u8>>,
    pub can_be_prefix: bool,
    pub must_be_fresh: bool,
    pub nonce: Option<u32>,
    pub interest_lifetime: Option<u32>,
    pub hop_limit: Option<u8>,
}

/// The writes of an optional 32-bit field.
pub open spec fn u32_field(t: TlvType, v: Option<u32>) -> Seq<Seq<u8>> {
    match v {
        Some(n) => block(t, crate::wire::be32(n)),
        None => seq![],
    }
}

/// What goes inside an Interest block: the Name block, then CanBePrefix and
/// MustBeFresh (empty) where set, then Nonce and InterestLifetime (4 big-endian
/// bytes) and HopLimit (1 byte) where present.
pub open spec fn interest_steps(i: InterestView, name_writes: Seq<Seq<u8>>) -> Seq<Seq<Seq<u8>>> {
    seq![
        name_writes,
        block_if(i.can_be_prefix, TlvType::CanBePrefix, seq![]),
        block_if(i.must_be_fresh, TlvType::MustBeFresh, seq![]),
        u32_field(TlvType::Nonce, i.nonce),
        u32_field(TlvType::InterestLifetime, i.interest_lifetime),
        match i.hop_limit {
            Some(h) => block(TlvType::HopLimit, seq![h]),
            None => seq![],
        },
    ]
}

/// What encoding an Interest does: an Interest block around its fields, which
/// are first encoded into a scratch buffer.
pub open spec fn interest_plan(i: InterestView) -> Result<Seq<Seq<u8>>, NdnError> {
    match name_plan(i.name) {
        Err(e) => Err(e),
        Ok(nw) => match scratch_encode(interest_steps(i, nw).flatten()) {
            Err(e) => Err(e),
            Ok(content) => Ok(block(TlvType::Interest, content)),
        },
    }
}

/// An NDN Interest packet.
#[derive(Debug, Clone, PartialEq)]
pub struct Interest {
    name: Name,
    can_be_prefix: bool,
    must_be_fresh: bool,
    nonce: Option<u32>,
    interest_lifetime: Option<u32>,
    hop_limit: Option<u8>,
}

impl View for Interest {
    type V = InterestView;

    closed spec fn view(&self) -> InterestView {
        InterestView {
            name: self.name@,
            can_be_prefix: self.can_be_prefix,
            must_be_fresh: self.must_be_fresh,
            nonce: self.nonce,
            interest_lifetime: self.interest_lifetime,
            hop_limit: self.hop_limit,
        }
    }
}

impl Interest {
    /// An Interest for `name`, with no flag set and no optional field.
    pub fn new(name: Name) -> (r: Self)
        ensures
            r@ == (InterestView {
                name: name@,
                can_be_prefix: false,
                must_be_fresh: false,
                nonce: None,
                interest_lifetime: None,
                hop_limit: None,
            }),
    {
        Interest {
            name,
            can_be_prefix: false,
            must_be_fresh: false,
            nonce: None,
            interest_lifetime: None,
            hop_limit: None,
        }
    }

    pub fn name(&self) -> (r: &Name)
        ensures
            r@ == self@.name,
    {
        &self.name
    }

    pub fn can_be_prefix(&self) -> (r: bool)
        ensures
            r == self@.can_be_prefix,
    {
        self.can_be_prefix
    }

    pub fn set_can_be_prefix(&mut self, can_be_prefix: bool) -> (r: &mut Self)
        ensures
            r@ == (InterestView { can_be_prefix, ..old(self)@ }),
            final(self)@ == final(r)@,
    {
        self.can_be_prefix = can_be_prefix;
        self
    }

    pub fn must_be_fresh(&self) -> (r: bool)
        ensures
            r == self@.must_be_fresh,
    {
        self.must_be_fresh
    }

    pub fn set_must_be_fresh(&mut self, must_be_fresh: bool) -> (r: &mut Self)
        ensures
            r@ == (InterestView { must_be_fresh, ..old(self)@ }),
            final(self)@ == final(r)@,
    {
        self.must_be_fresh = must_be_fresh;
        self
    }

    pub fn nonce(&self) -> (r: Option<u32>)
        ensures
            r == self@.nonce,
    {
        self.nonce
    }

    pub fn set_nonce(&mut self, nonce: u32) -> (r: &mut Self)
        ensures
            r@ == (InterestView { nonce: Some(nonce), ..old(self)@ }),
            final(self)@ == final(r)@,
    {
        self.nonce = Some(nonce);
        self
    }

    pub fn interest_lifetime(&self) -> (r: Option<u32>)
        ensures
            r == self@.interest_lifetime,
    {
        self.interest_lifetime
    }

    /// Set the lifetime, in milliseconds.
    pub fn set_interest_lifetime(&mut self, lifetime: u32) -> (r: &mut Self)
        ensures
            r@ == (InterestView { interest_lifetime: Some(lifetime), ..old(self)@ }),
            final(self)@ == final(r)@,
    {
        self.interest_lifetime = Some(lifetime);
        self
    }

    pub fn hop_limit(&self) -> (r: Option<u8>)
        ensures
            r == self@.hop_limit,
    {
        self.hop_limit
    }

    pub fn set_hop_limit(&mut self, hop_limit: u8) -> (r: &mut Self)
        ensures
            r@ == (InterestView { hop_limit: Some(hop_limit), ..old(self)@ }),
            final(self)@ == final(r)@,
    {
        self.hop_limit = Some(hop_limit);
        self
    }

    /// Encode the Interest as an Interest block. Its fields are first encoded
    /// into a scratch buffer of `SCRATCH_LEN` bytes.
    pub fn encode_tlv(&self, encoder: &mut TlvEncoder) -> (r: Result<(), NdnError>)
        ensures
            performs_plan(old(encoder)@, final(encoder)@, interest_plan(self@), r),
    {
        let mut scratch = new_scratch();
        let content = {
            let mut temp = TlvEncoder::new(scratch.as_mut_slice());
            let ghost st0 = temp@;
            let ghost steps = interest_steps(self@, name_writes_or_none(self@.name));
            let rn = put_name_step(&mut temp, &self.name, Ghost(steps));
            if rn.is_err() {
                return rn;
            }
            let empty: Vec<u8> = Vec::new();
            let ghost s1 = temp@;
            let r1 = put_block_if(&mut temp, self.can_be_prefix, TlvType::CanBePrefix, empty.as_slice());
            proof {
                lemma_step(st0, steps, 1, s1, temp@, r1);
            }
            if r1.is_err() {
                return r1;
            }
            let ghost s2 = temp@;
            let r2 = put_block_if(&mut temp, self.must_be_fresh, TlvType::MustBeFresh, empty.as_slice());
            proof {
                lemma_step(st0, steps, 2, s2, temp@, r2);
            }
            if r2.is_err() {
                return r2;
            }
            let ghost s3 = temp@;
            let r3 = match self.nonce {
                Some(nonce) => temp.encode_tlv(TlvType::Nonce, be32_bytes(nonce).as_slice()),
                None => Ok(()),
            };
            proof {
                lemma_step(st0, steps, 3, s3, temp@, r3);
            }
            if r3.is_err() {
                return r3;
            }
            let ghost s4 = temp@;
            let r4 = match self.interest_lifetime {
                Some(lifetime) => temp.encode_tlv(
                    TlvType::InterestLifetime,
                    be32_bytes(lifetime).as_slice(),
                ),
                None => Ok(()),
            };
            proof {
                lemma_step(st0, steps, 4, s4, temp@, r4);
            }
            if r4.is_err() {
                return r4;
            }
            let ghost s5 = temp@;
            let r5 = match self.hop_limit {
                Some(hop_limit) => {
                    let mut b: Vec<u8> = Vec::new();
                    b.push(hop_limit);
                    proof {
                        assert(b@ =~= seq![hop_limit]);
                    }
                    temp.encode_tlv(TlvType::HopLimit, b.as_slice())
                },
                None => Ok(()),
            };
            proof {
                lemma_step(st0, steps, 5, s5, temp@, r5);
            }
            if r5.is_err() {
                return r5;
            }
            proof {
                lemma_steps_done(st0, steps, temp@);
                lemma_scratch_ok(steps.flatten(), temp@);
            }
            temp.written()
        };
        encoder.encode_tlv_with_content(TlvType::Interest, content.as_slice())
    }
}

// ---------------------------------------------------------------------------
// MetaInfo and Signature
// ---------------------------------------------------------------------------

/// What the MetaInfo of a Data packet is.
pub struct MetaInfoView {
    pub content_type: Option<u32>,
    pub freshness_period: Option<u32>,
}

/// MetaInfo of a Data packet.
#[derive(Debug, Clone, PartialEq)]
pub struct MetaInfo {
    content_type: Option<u32>,
    freshness_period: Option<u32>,
}

impl View for MetaInfo {
    type V = MetaInfoView;

    closed spec fn view(&self) -> MetaInfoView {
        MetaInfoView { content_type: self.content_type, freshness_period: self.freshness_period }
    }
}

impl MetaInfo {
    pub fn new() -> (r: Self)
        ensures
            r@ == (MetaInfoView { content_type: None, freshness_period: None }),
    {
        MetaInfo { content_type: None, freshness_period: None }
    }

    pub fn content_type(&self) -> (r: Option<u32>)
        ensures
            r == self@.content_type,
    {
        self.content_type
    }

    pub fn set_content_type(&mut self, content_type: u32) -> (r: &mut Self)
        ensures
            r@ == (MetaInfoView { content_type: Some(content_type), ..old(self)@ }),
            final(self)@ == final(r)@,
    {
        self.content_type = Some(content_type);
        self
    }

    pub fn freshness_period(&self) -> (r: Option<u32>)
        ensures
            r == self@.freshness_period,
    {
        self.freshness_period
    }

    pub fn set_freshness_period(&mut self, freshness_period: u32) -> (r: &mut Self)
        ensures
            r@ == (MetaInfoView { freshness_period: Some(freshness_period), ..old(self)@ }),
            final(self)@ == final(r)@,
    {
        self.freshness_period = Some(freshness_period);
        self
    }

    /// Encode the MetaInfo. Its fields are not encoded: the block is always empty.
    pub fn encode_tlv(&self, encoder: &mut TlvEncoder) -> (r: Result<(), NdnError>)
        ensures
            performs(old(encoder)@, final(encoder)@, block(TlvType::MetaInfo, seq![]), r),
    {
        let empty: Vec<u8> = Vec::new();
        encoder.encode_tlv_with_content(TlvType::MetaInfo, empty.as_slice())
    }

    /// A copy of this MetaInfo.
    pub(crate) fn duplicate(&self) -> (r: Self)
        ensures
            r@ == self@,
    {
        MetaInfo { content_type: self.content_type, freshness_period: self.freshness_period }
    }
}

impl Default for MetaInfo {
    fn default() -> (r: Self)
        ensures
            r@ == (MetaInfoView { content_type: None, freshness_period: None }),
    {
        MetaInfo::new()
    }
}

/// What the signature of a Data packet is.
pub struct SignatureView {
    pub signature_info: Seq<u8>,
    pub signature_value: Seq<u8>,
}

/// The writes of a signature: a SignatureInfo block, then a SignatureValue block.
pub open spec fn signature_writes(s: SignatureView) -> Seq<Seq<u8>> {
    block(TlvType::SignatureInfo, s.signature_info) + block(
        TlvType::SignatureValue,
        s.signature_value,
    )
}

/// The signature of a Data packet.
#[derive(Debug, Clone, PartialEq)]
pub struct Signature {
    signature_info: Vec<u8>,
    signature_value: Vec<u8>,
}

impl View for Signature {
    type V = SignatureView;

    closed spec fn view(&self) -> SignatureView {
        SignatureView {
            signature_info: self.signature_info@,
            signature_value: self.signature_value@,
        }
    }
}

impl Signature {
    pub fn new(signature_info: Vec<u8>, signature_value: Vec<u8>) -> (r: Self)
        ensures
            r@ == (SignatureView {
                signature_info: signature_info@,
                signature_value: signature_value@,
            }),
    {
        Signature { signature_info, signature_value }
    }

    pub fn signature_info(&self) -> (r: &[u8])
        ensures
            r@ == self@.signature_info,
    {
        self.signature_info.as_slice()
    }

    pub fn signature_value(&self) -> (r: &[u8])
        ensures
            r@ == self@.signature_value,
    {
        self.signature_value.as_slice()
    }

    /// Encode the signature: a SignatureInfo block, then a SignatureValue block.
    pub fn encode_tlv(&self, encoder: &mut TlvEncoder) -> (r: Result<(), NdnError>)
        ensures
            performs(old(encoder)@, final(encoder)@, signature_writes(self@), r),
    {
        let ghost s0 = encoder@;
        let r1 = encoder.encode_tlv(TlvType::SignatureInfo, self.signature_info.as_slice());
        if r1.is_err() {
            proof {
                lemma_performs_first(
                    s0,
                    block(TlvType::SignatureInfo, self@.signature_info),
                    block(TlvType::SignatureValue, self@.signature_value),
                );
            }
            return r1;
        }
        let ghost s1 = encoder@;
        let r2 = encoder.encode_tlv(TlvType::SignatureValue, self.signature_value.as_slice());
        proof {
            lemma_performs_then(
                s0,
                s1,
                encoder@,
                block(TlvType::SignatureInfo, self@.signature_info),
                block(TlvType::SignatureValue, self@.signature_value),
                r2,
            );
        }
        if r2.is_err() {
            return r2;
        }
        Ok(())
    }

    /// A copy of this signature.
    pub(crate) fn duplicate(&self) -> (r: Self)
        ensures
            r@ == self@,
    {
        Signature {
            signature_info: slice_to_vec(self.signature_info.as_slice()),
            signature_value: slice_to_vec(self.signature_value.as_slice()),
        }
    }
}

// ---------------------------------------------------------------------------
// Data packets
// ---------------------------------------------------------------------------

/// What a Data packet is.
pub struct DataView {
    pub name: Seq<Seq<u8>>,
    pub meta_info: Option<MetaInfoView>,
    pub content: Seq<u8>,
    pub signature: Option<SignatureView>,
}

/// What goes inside a Data block: the Name block, then the (empty) MetaInfo
/// block where there is MetaInfo, the Content block where the content is not
/// empty, and the signature's two blocks where there is a signature.
pub open spec fn data_steps(d: DataView, name_writes: Seq<Seq<u8>>) -> Seq<Seq<Seq<u8>>> {
    seq![
        name_writes,
        block_if(d.meta_info is Some, TlvType::MetaInfo, seq![]),
        block_if(d.content.len() > 0, TlvType::Content, d.content),
        match d.signature {
            Some(sig) => signature_writes(sig),
            None => seq![],
        },
    ]
}

/// What encoding a Data packet does: a Data block around its parts, which are
/// first encoded into a scratch buffer.
pub open spec fn data_plan(d: DataView) -> Result<Seq<Seq<u8>>, NdnError> {
    match name_plan(d.name) {
        Err(e) => Err(e),
        Ok(nw) => match scratch_encode(data_steps(d, nw).flatten()) {
            Err(e) => Err(e),
            Ok(content) => Ok(block(TlvType::Data, content)),
        },
    }
}

/// An NDN Data packet.
#[derive(Debug, Clone, PartialEq)]
pub struct Data {
    name: Name,
    meta_info: Option<MetaInfo>,
    content: Vec<u8>,
    signature: Option<Signature>,
}

impl View for Data {
    type V = DataView;

    closed spec fn view(&self) -> DataView {
        DataView {
            name: self.name@,
            meta_info: match self.meta_info {
                Some(m) => Some(m@),
                None => None,
            },
            content: self.content@,
            signature: match self.signature {
                Some(s) => Some(s@),
                None => None,
            },
        }
    }
}

impl Data {
    /// A Data packet for `name` with `content`, no MetaInfo and no signature.
    pub fn new(name: Name, content: Vec<u8>) -> (r: Self)
        ensures
            r@ == (DataView { name: name@, meta_info: None, content: content@, signature: None }),
    {
        Data { name, meta_info: None, content, signature: None }
    }

    pub fn name(&self) -> (r: &Name)
        ensures
            r@ == self@.name,
    {
        &self.name
    }

    pub fn content(&self) -> (r: &[u8])
        ensures
            r@ == self@.content,
    {
        self.content.as_slice()
    }

    pub fn set_content(&mut self, content: Vec<u8>) -> (r: &mut Self)
        ensures
            r@ == (DataView { content: content@, ..old(self)@ }),
            final(self)@ == final(r)@,
    {
        self.content = content;
        self
    }

    pub fn meta_info(&self) -> (r: Option<&MetaInfo>)
        ensures
            r is Some <==> self@.meta_info is Some,
            r matches Some(m) ==> self@.meta_info == Some(m@),
    {
        self.meta_info.as_ref()
    }

    pub fn set_meta_info(&mut self, meta_info: MetaInfo) -> (r: &mut Self)
        ensures
            r@ == (DataView { meta_info: Some(meta_info@), ..old(self)@ }),
            final(self)@ == final(r)@,
    {
        self.meta_info = Some(meta_info);
        self
    }

    pub fn signature(&self) -> (r: Option<&Signature>)
        ensures
            r is Some <==> self@.signature is Some,
            r matches Some(s) ==> self@.signature == Some(s@),
    {
        self.signature.as_ref()
    }

    pub fn set_signature(&mut self, signature: Signature) -> (r: &mut Self)
        ensures
            r@ == (DataView { signature: Some(signature@), ..old(self)@ }),
            final(self)@ == final(r)@,
    {
        self.signature = Some(signature);
        self
    }

    /// Encode the Data packet as a Data block. Its parts are first encoded into
    /// a scratch buffer of `SCRATCH_LEN` bytes.
    pub fn encode_tlv(&self, encoder: &mut TlvEncoder) -> (r: Result<(), NdnError>)
        ensures
            performs_plan(old(encoder)@, final(encoder)@, data_plan(self@), r),
    {
        let mut scratch = new_scratch();
        let content = {
            let mut temp = TlvEncoder::new(scratch.as_mut_slice());
            let ghost st0 = temp@;
            let ghost steps = data_steps(self@, name_writes_or_none(self@.name));
            let rn = put_name_step(&mut temp, &self.name, Ghost(steps));
            if rn.is_err() {
                return rn;
            }
            let ghost s1 = temp@;
            let r1 = match &self.meta_info {
                Some(meta_info) => meta_info.encode_tlv(&mut temp),
                None => Ok(()),
            };
            proof {
                lemma_step(st0, steps, 1, s1, temp@, r1);
            }
            if r1.is_err() {
                return r1;
            }
            let ghost s2 = temp@;
            let r2 = put_block_if(
                &mut temp,
                self.content.len() > 0,
                TlvType::Content,
                self.content.as_slice(),
            );
            proof {
                lemma_step(st0, steps, 2, s2, temp@, r2);
            }
            if r2.is_err() {
                return r2;
            }
            let ghost s3 = temp@;
            let r3 = match &self.signature {
                Some(signature) => signature.encode_tlv(&mut temp),
                None => Ok(()),
            };
            proof {
                lemma_step(st0, steps, 3, s3, temp@, r3);
            }
            if r3.is_err() {
                return r3;
            }
            proof {
                lemma_steps_done(st0, steps, temp@);
                lemma_scratch_ok(steps.flatten(), temp@);
            }
            temp.written()
        };
        encoder.encode_tlv_with_content(TlvType::Data, content.as_slice())
    }
}

} // verus!
