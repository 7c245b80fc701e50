//! The VST3 MIDI-CC proxy parameter space.
//!
//! VST3 has no MIDI CC input events; hosts deliver controller moves
//! as automation of proxy parameters instead. Every (channel, CC)
//! pair of the 16 MIDI channels × 128 controllers gets one parameter
//! id in a block starting at `PROXY_BASE`, laid out channel-major.

use vstd::prelude::*;

verus! {

/// First parameter id of the proxy block.
pub const PROXY_BASE: u32 = 0x6d63_6d00;
/// MIDI channels covered by the proxy block.
pub const PROXY_CHANNELS: u32 = 16;
/// Controllers per channel covered by the proxy block.
pub const PROXY_CCS: u32 = 128;
/// Number of ids in the proxy block.
pub const PROXY_COUNT: u32 = PROXY_CHANNELS * PROXY_CCS;

/// The part of a plugin's static metadata that decides whether the
/// proxy block is published.
pub struct PluginInfo {
    pub accepts_midi_in: bool,
}

/// Is `id` one of the proxy parameter ids?
pub open spec fn is_proxy(id: int) -> bool {
    PROXY_BASE <= id < PROXY_BASE + PROXY_COUNT
}

/// The proxy id of controller `cc` on channel `channel`.
pub open spec fn proxy_id(channel: int, cc: int) -> int {
    PROXY_BASE + channel * PROXY_CCS + cc
}

/// The (channel, CC) pair a proxy id stands for.
pub open spec fn proxy_pair(id: int) -> (int, int) {
    ((id - PROXY_BASE) / (PROXY_CCS as int), (id - PROXY_BASE) % (PROXY_CCS as int))
}

/// The proxy block is published only for plugins that take MIDI in.
pub fn is_enabled(info: &PluginInfo) -> (r: bool)
    ensures
        r == info.accepts_midi_in,
{
    info.accepts_midi_in
}

/// Is `id` inside the proxy block?
pub fn is_proxy_id(id: u32) -> (r: bool)
    ensures
        r == is_proxy(id as int),
{
    id >= PROXY_BASE && id < PROXY_BASE + PROXY_COUNT
}

/// The proxy id of (`channel`, `cc`); `None` unless `channel < 16`
/// and `cc < 128`.
pub fn to_param_id(channel: u8, cc: u8) -> (r: Option<u32>)
    ensures
        r == (if channel < 16 && cc < 128 {
            Some(proxy_id(channel as int, cc as int) as u32)
        } else {
            None::<u32>
        }),
        channel < 16 && cc < 128 ==> r == Some((0x6d63_6d00 + channel * 128 + cc) as u32),
        r is Some <==> channel < 16 && cc < 128,
{
    if channel < 16 && cc < 128 {
        Some(PROXY_BASE + (channel as u32) * PROXY_CCS + (cc as u32))
    } else {
        None
    }
}

/// The (channel, CC) pair behind a proxy id; `None` for any id
/// outside the proxy block.
pub fn from_param_id(id: u32) -> (r: Option<(u8, u8)>)
    ensures
        r == (if is_proxy(id as int) {
            Some((proxy_pair(id as int).0 as u8, proxy_pair(id as int).1 as u8))
        } else {
            None::<(u8, u8)>
        }),
        r is Some <==> 0x6d63_6d00 <= id < 0x6d63_6d00 + 2048,
        r matches Some((ch, cc)) ==> {
            &&& ch == (id - 0x6d63_6d00) / 128
            &&& cc == (id - 0x6d63_6d00) % 128
            &&& id == 0x6d63_6d00 + ch * 128 + cc
            &&& ch < 16
            &&& cc < 128
        },
{
    let offset = match id.checked_sub(PROXY_BASE) {
        Some(o) => o,
        None => return None,
    };
    if offset >= PROXY_COUNT {
        return None;
    }
    Some(((offset / PROXY_CCS) as u8, (offset % PROXY_CCS) as u8))
}

/// Every proxy parameter id, in ascending order.
pub fn iter_param_ids() -> (ids: Vec<u32>)
    ensures
        ids@.len() == PROXY_COUNT,
        forall|i: int| 0 <= i < ids@.len() ==> ids@[i] == PROXY_BASE + i,
{
    let mut ids: Vec<u32> = Vec::new();
    let mut offset: u32 = 0;
    while offset < PROXY_COUNT
        invariant
            offset <= PROXY_COUNT,
            ids@.len() == offset,
            forall|i: int| 0 <= i < ids@.len() ==> ids@[i] == PROXY_BASE + i,
        decreases PROXY_COUNT - offset,
    {
        ids.push(PROXY_BASE + offset);
        offset += 1;
    }
    ids
}


/// The proxy block is laid out channel-major from `0x6d63_6d00`: the
/// id of (`channel`, `cc`) is `0x6d63_6d00 + channel * 128 + cc`, and
/// an id in the block names the channel `(id - base) / 128` and the
/// controller `(id - base) % 128`.
pub proof fn proxy_layout_is_channel_major(channel: int, cc: int, id: int)
    ensures
        proxy_id(channel, cc) == 0x6d63_6d00 + channel * 128 + cc,
        is_proxy(id) <==> 0x6d63_6d00 <= id < 0x6d63_6d00 + 2048,
        is_proxy(id) ==> proxy_pair(id).0 * 128 + proxy_pair(id).1 == id - 0x6d63_6d00,
        is_proxy(id) ==> 0 <= proxy_pair(id).1 < 128,
        is_proxy(id) ==> 0 <= proxy_pair(id).0 < 16,
{
    if is_proxy(id) {
        vstd::arithmetic::div_mod::lemma_fundamental_div_mod(id - 0x6d63_6d00, 128);
    }
}

/// Every (channel, CC) pair maps to an id inside the block, and that
/// id maps back to the same pair.
pub proof fn param_id_round_trip(channel: int, cc: int)
    requires
        0 <= channel < PROXY_CHANNELS,
        0 <= cc < PROXY_CCS,
    ensures
        is_proxy(proxy_id(channel, cc)),
        proxy_id(channel, cc) <= u32::MAX,
        proxy_pair(proxy_id(channel, cc)) == (channel, cc),
{
    let off = channel * 128 + cc;
    assert(0 <= off < 2048) by (nonlinear_arith)
        requires
            0 <= channel < 16,
            0 <= cc < 128,
            off == channel * 128 + cc,
    ;
    vstd::arithmetic::div_mod::lemma_fundamental_div_mod_converse(off, 128, channel, cc);
}

/// Every id inside the block stands for a valid (channel, CC) pair
/// whose proxy id is that id.
pub proof fn param_pair_round_trip(id: int)
    requires
        is_proxy(id),
    ensures
        0 <= proxy_pair(id).0 < PROXY_CHANNELS,
        0 <= proxy_pair(id).1 < PROXY_CCS,
        proxy_id(proxy_pair(id).0, proxy_pair(id).1) == id,
{
    let off = id - PROXY_BASE;
    vstd::arithmetic::div_mod::lemma_fundamental_div_mod(off, 128);
}

/// ASCII decimal digits of `n`, most significant first.
pub open spec fn decimal_digits(n: nat) -> Seq<u8>
    decreases n,
{
    if n < 10 {
        seq![(48 + n) as u8]
    } else {
        decimal_digits(n / 10).push((48 + n % 10) as u8)
    }
}

/// The display name of the proxy parameter for (`channel`, `cc`):
/// `"CC <channel>:<cc>"`.
pub open spec fn proxy_name(channel: nat, cc: nat) -> Seq<u8> {
    seq![67u8, 67u8, 32u8] + decimal_digits(channel) + seq![58u8] + decimal_digits(cc)
}

/// The number an ASCII decimal digit string spells.
pub open spec fn digits_value(s: Seq<u8>) -> int
    decreases s.len(),
{
    if s.len() == 0 {
        0
    } else {
        digits_value(s.drop_last()) * 10 + (s.last() - 48)
    }
}

/// `decimal_digits(n)` is a non-empty string of ASCII digits that
/// spells `n`.
pub proof fn decimal_digits_spell_the_number(n: nat)
    ensures
        decimal_digits(n).len() >= 1,
        forall|i: int| 0 <= i < decimal_digits(n).len() ==> 48 <= #[trigger] decimal_digits(n)[i] <= 57,
        digits_value(decimal_digits(n)) == n,
    decreases n,
{
    if n >= 10 {
        decimal_digits_spell_the_number(n / 10);
        let d = decimal_digits(n);
        assert(d.drop_last() =~= decimal_digits(n / 10));
        assert(d.last() == (48 + n % 10) as u8);
        assert(digits_value(d) == digits_value(d.drop_last()) * 10 + (d.last() - 48));
        assert(n == (n / 10) * 10 + n % 10);
    } else {
        let d = decimal_digits(n);
        assert(d.drop_last() =~= Seq::<u8>::empty());
        assert(digits_value(d) == digits_value(d.drop_last()) * 10 + (d.last() - 48));
        assert(digits_value(Seq::<u8>::empty()) == 0);
    }
}

/// A proxy name reads back as `"CC "`, the channel number in decimal,
/// `':'`, and the controller number in decimal.
pub proof fn proxy_name_reads_back(channel: nat, cc: nat)
    ensures
        ({
            let name = proxy_name(channel, cc);
            let k = decimal_digits(channel).len();
            &&& name.take(3) == seq![67u8, 67u8, 32u8]
            &&& digits_value(name.subrange(3, 3 + k as int)) == channel
            &&& name[3 + k as int] == 58u8
            &&& digits_value(name.skip(4 + k as int)) == cc
        }),
{
    decimal_digits_spell_the_number(channel);
    decimal_digits_spell_the_number(cc);
    let name = proxy_name(channel, cc);
    let k = decimal_digits(channel).len();
    assert(name.take(3) =~= seq![67u8, 67u8, 32u8]);
    assert(name.subrange(3, 3 + k as int) =~= decimal_digits(channel));
    assert(name.skip(4 + k as int) =~= decimal_digits(cc));
}

/// Append the ASCII decimal digits of `n` to `out`.
fn push_decimal(out: &mut Vec<u8>, n: u8)
    ensures
        final(out)@ == old(out)@ + decimal_digits(n as nat),
{
    proof {
        reveal_with_fuel(decimal_digits, 3);
    }
    if n >= 100 {
        out.push(48 + n / 100);
    }
    if n >= 10 {
        out.push(48 + (n / 10) % 10);
    }
    out.push(48 + n % 10);
    assert(out@ =~= old(out)@ + decimal_digits(n as nat));
}

/// What the host is told about one proxy parameter: its id, its
/// display name (ASCII), its step count and its flags. Range and
/// default are the normalized `0.0..=1.0` and `0.0` for every entry.
pub struct ProxyParamDescriptor {
    pub id: u32,
    pub name: Vec<u8>,
    pub step_count: u32,
    pub flags: u32,
}

/// One descriptor per proxy parameter, in id order: a 128-step
/// automatable parameter named `"CC <channel>:<cc>"`.
pub fn descriptors() -> (descs: Vec<ProxyParamDescriptor>)
    ensures
        descs@.len() == PROXY_COUNT,
        forall|i: int|
            #![trigger descs@[i]]
            0 <= i < descs@.len() ==> {
                &&& descs@[i].id == PROXY_BASE + i
                &&& descs@[i].name@ == proxy_name((i / 128) as nat, (i % 128) as nat)
                &&& descs@[i].name@ == seq![67u8, 67u8, 32u8] + decimal_digits(((descs@[i].id - 0x6d63_6d00) / 128) as nat) + seq![58u8] + decimal_digits(((descs@[i].id - 0x6d63_6d00) % 128) as nat)
                &&& descs@[i].step_count == 127
                &&& descs@[i].flags == 1
            },
{
    let ids = iter_param_ids();
    let mut descs: Vec<ProxyParamDescriptor> = Vec::new();
    let mut k: usize = 0;
    while k < ids.len()
        invariant
            k <= ids@.len(),
            ids@.len() == PROXY_COUNT,
            forall|i: int| 0 <= i < ids@.len() ==> ids@[i] == PROXY_BASE + i,
            descs@.len() == k,
            forall|i: int|
                #![trigger descs@[i]]
                0 <= i < k ==> {
                    &&& descs@[i].id == PROXY_BASE + i
                    &&& descs@[i].name@ == proxy_name((i / 128) as nat, (i % 128) as nat)
                    &&& descs@[i].step_count == 127
                    &&& descs@[i].flags == 1
                },
        decreases ids@.len() - k,
    {
        let id = ids[k];
        let (ch, cc) = from_param_id(id).unwrap();
        let mut name: Vec<u8> = Vec::new();
        name.push(67);
        name.push(67);
        name.push(32);
        push_decimal(&mut name, ch);
        name.push(58);
        push_decimal(&mut name, cc);
        assert(name@ =~= proxy_name(ch as nat, cc as nat));
        descs.push(ProxyParamDescriptor { id, name, step_count: 127, flags: 1 });
        k += 1;
    }
    descs
}

} // verus!
