//! Audio endpoint lists: how the backend's endpoints become device records,
//! in the order they are offered, and membership tests.
use vstd::prelude::*;

use crate::audio::types::{is_virtual_cable_name, virtual_cable_name, AudioDevice, DeviceFlow};
use crate::order::{
    items_of, keyed_le, kviews, lemma_stable_sort_pairwise, lemma_stable_sort_sorted, sort_keyed,
    stable_sort, unkey, Keyed, KeyedView,
};
use crate::text::{lex_le, owned};

verus! {

/// An active endpoint as the backend reports it.
#[derive(Debug, Clone)]
pub struct EndpointInfo {
    pub id: String,
    /// The friendly name, where it could be read.
    pub friendly_name: Option<String>,
    pub channels: Option<u16>,
    pub sample_rate: Option<u32>,
}

/// The name shown for an endpoint: its friendly name, or its id where that
/// is missing or empty.
pub open spec fn endpoint_name(e: EndpointInfo) -> Seq<char> {
    match e.friendly_name {
        Some(n) => if n@.len() > 0 {
            n@
        } else {
            e.id@
        },
        None => e.id@,
    }
}

/// The device record of an endpoint.
pub open spec fn device_entry(
    e: EndpointInfo,
    flow: DeviceFlow,
    default_id: Option<Seq<char>>,
    d: AudioDevice,
) -> bool {
    &&& d.id@ == e.id@
    &&& d.name@ == endpoint_name(e)
    &&& d.flow == flow
    &&& d.is_default == (default_id == Some(e.id@))
    &&& d.is_virtual_cable_like == virtual_cable_name(endpoint_name(e))
    &&& d.channels == e.channels
    &&& d.sample_rate == e.sample_rate
}

/// Virtual cables first, then the default endpoint, then by name.
pub open spec fn device_keys(s: Seq<AudioDevice>) -> Seq<KeyedView<AudioDevice>> {
    Seq::new(
        s.len(),
        |i: int|
            (((if s[i].is_virtual_cable_like {
                2int
            } else {
                0
            }) + (if s[i].is_default {
                1int
            } else {
                0
            })) as u8, s[i].name@, s[i]),
    )
}

/// Devices in the order they are listed: the same devices, virtual cables
/// before every other device, among devices alike in that the default one
/// first, and devices alike in both by name in lexicographic order.
pub proof fn lemma_devices_listed_order(s: Seq<AudioDevice>)
    ensures
        items_of(stable_sort(device_keys(s))).len() == s.len(),
        forall|k: int|
            0 <= k < s.len() ==> exists|i: int|
                0 <= i < s.len() && #[trigger] items_of(stable_sort(device_keys(s)))[k] == s[i],
        forall|i: int, j: int|
            0 <= i < j < s.len() ==> {
                let a = #[trigger] items_of(stable_sort(device_keys(s)))[i];
                let b = #[trigger] items_of(stable_sort(device_keys(s)))[j];
                &&& b.is_virtual_cable_like ==> a.is_virtual_cable_like
                &&& (a.is_virtual_cable_like == b.is_virtual_cable_like && b.is_default)
                    ==> a.is_default
                &&& (a.is_virtual_cable_like == b.is_virtual_cable_like && a.is_default
                    == b.is_default) ==> lex_le(a.name@, b.name@)
            },
{
    let keys = device_keys(s);
    let sorted = stable_sort(keys);
    lemma_stable_sort_sorted(keys);
    lemma_stable_sort_pairwise(keys, |a: AudioDevice, b: AudioDevice| true);
    let r = items_of(sorted);
    assert forall|k: int| 0 <= k < s.len() implies exists|i: int|
        0 <= i < s.len() && #[trigger] r[k] == s[i] by {
        let m = choose|m: int| 0 <= m < keys.len() && #[trigger] sorted[k] == keys[m];
        assert(r[k] == s[m]);
    }
    assert forall|i: int, j: int| 0 <= i < j < s.len() implies {
        let a = #[trigger] r[i];
        let b = #[trigger] r[j];
        &&& b.is_virtual_cable_like ==> a.is_virtual_cable_like
        &&& (a.is_virtual_cable_like == b.is_virtual_cable_like && b.is_default) ==> a.is_default
        &&& (a.is_virtual_cable_like == b.is_virtual_cable_like && a.is_default == b.is_default)
            ==> lex_le(a.name@, b.name@)
    } by {
        let ki = choose|m: int| 0 <= m < keys.len() && #[trigger] sorted[i] == keys[m];
        let kj = choose|m: int| 0 <= m < keys.len() && #[trigger] sorted[j] == keys[m];
        assert(keyed_le(sorted[i], sorted[j]));
        assert(r[i] == s[ki] && r[j] == s[kj]);
    }
}

/// The view of an optional string.
pub open spec fn opt_view(o: Option<String>) -> Option<Seq<char>> {
    match o {
        Some(s) => Some(s@),
        None => None,
    }
}

fn device_from_endpoint(e: EndpointInfo, flow: DeviceFlow, default_id: &Option<String>) -> (r:
    AudioDevice)
    ensures
        device_entry(e, flow, opt_view(*default_id), r),
{
    let name = match &e.friendly_name {
        Some(n) => if n.as_str().unicode_len() > 0 {
            n.clone()
        } else {
            e.id.clone()
        },
        None => e.id.clone(),
    };
    let is_default = match default_id {
        Some(d) => *d == e.id,
        None => false,
    };
    let is_virtual_cable_like = is_virtual_cable_name(name.as_str());
    AudioDevice {
        id: e.id,
        name,
        flow,
        is_default,
        is_virtual_cable_like,
        channels: e.channels,
        sample_rate: e.sample_rate,
    }
}

/// The device records of the active endpoints of one flow: virtual cables
/// first, then the default endpoint, then by name; endpoints that compare
/// equal keep their order.
pub fn list_devices(flow: DeviceFlow, endpoints: Vec<EndpointInfo>, default_id: Option<String>) -> (r:
    Vec<AudioDevice>)
    ensures
        exists|entries: Seq<AudioDevice>|
            {
                &&& entries.len() == endpoints@.len()
                &&& forall|i: int|
                    0 <= i < entries.len() ==> device_entry(
                        endpoints@[i],
                        flow,
                        opt_view(default_id),
                        #[trigger] entries[i],
                    )
                &&& r@ == items_of(stable_sort(device_keys(entries)))
            },
{
    let ghost orig = endpoints@;
    let mut rest = endpoints;
    let mut keyed: Vec<Keyed<AudioDevice>> = Vec::new();
    let ghost mut entries: Seq<AudioDevice> = Seq::empty();
    let n = rest.len();
    let mut i: usize = 0;
    while i < n
        invariant
            n == orig.len(),
            i <= n,
            rest@ == orig.skip(i as int),
            entries.len() == i,
            forall|j: int|
                0 <= j < i ==> device_entry(
                    orig[j],
                    flow,
                    opt_view(default_id),
                    #[trigger] entries[j],
                ),
            kviews(keyed@) == device_keys(entries),
        decreases n - i,
    {
        let e = rest.remove(0);
        assert(rest@ =~= orig.skip(i + 1));
        let d = device_from_endpoint(e, flow, &default_id);
        let rank: u8 = (if d.is_virtual_cable_like {
            2u8
        } else {
            0u8
        }) + (if d.is_default {
            1u8
        } else {
            0u8
        });
        let label = d.name.clone();
        let ghost before = kviews(keyed@);
        let ghost prev = entries;
        proof {
            entries = entries.push(d);
        }
        keyed.push(Keyed { rank, label, item: d });
        assert(kviews(keyed@) =~= before.push((rank, label@, d)));
        assert(device_keys(entries) =~= device_keys(entries.drop_last()).push(
            device_keys(entries).last(),
        ));
        assert(entries.drop_last() =~= prev);
        i = i + 1;
    }
    let sorted = sort_keyed(keyed);
    unkey(sorted)
}

/// The capture devices among the active capture endpoints, in the order
/// they are offered.
pub fn list_capture_devices(endpoints: Vec<EndpointInfo>, default_id: Option<String>) -> (r: Vec<
    AudioDevice,
>)
    ensures
        exists|entries: Seq<AudioDevice>|
            {
                &&& entries.len() == endpoints@.len()
                &&& forall|i: int|
                    0 <= i < entries.len() ==> device_entry(
                        endpoints@[i],
                        DeviceFlow::Capture,
                        opt_view(default_id),
                        #[trigger] entries[i],
                    )
                &&& r@ == items_of(stable_sort(device_keys(entries)))
            },
{
    list_devices(DeviceFlow::Capture, endpoints, default_id)
}

/// The render devices among the active render endpoints, in the order they
/// are offered.
pub fn list_render_devices(endpoints: Vec<EndpointInfo>, default_id: Option<String>) -> (r: Vec<
    AudioDevice,
>)
    ensures
        exists|entries: Seq<AudioDevice>|
            {
                &&& entries.len() == endpoints@.len()
                &&& forall|i: int|
                    0 <= i < entries.len() ==> device_entry(
                        endpoints@[i],
                        DeviceFlow::Render,
                        opt_view(default_id),
                        #[trigger] entries[i],
                    )
                &&& r@ == items_of(stable_sort(device_keys(entries)))
            },
{
    list_devices(DeviceFlow::Render, endpoints, default_id)
}

/// Whether `id` is the id of one of `devices`; `None` is none's.
pub open spec fn lists_id(devices: Seq<AudioDevice>, id: Option<Seq<char>>) -> bool {
    match id {
        Some(id) => exists|i: int| 0 <= i < devices.len() && (#[trigger] devices[i]).id@ == id,
        None => false,
    }
}

/// Whether `id` names one of `devices`; `None` names none.
pub fn contains_device(devices: &[AudioDevice], id: &Option<String>) -> (r: bool)
    ensures
        r == lists_id(devices@, opt_view(*id)),
{
    match id {
        Some(wanted) => {
            assert(opt_view(*id) == Some(wanted@));
            let n = devices.len();
            let mut i: usize = 0;
            while i < n
                invariant
                    n == devices@.len(),
                    i <= n,
                    opt_view(*id) == Some(wanted@),
                    forall|j: int| 0 <= j < i ==> (#[trigger] devices@[j]).id@ != wanted@,
                decreases n - i,
            {
                if devices[i].id == *wanted {
                    assert(devices@[i as int].id@ == wanted@);
                    return true;
                }
                i = i + 1;
            }
            false
        },
        None => false,
    }
}

} // verus!
