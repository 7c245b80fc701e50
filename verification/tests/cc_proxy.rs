use truce::vst3_midi_cc_proxy::{
    descriptors, from_param_id, is_enabled, is_proxy_id, iter_param_ids, to_param_id, PluginInfo,
    PROXY_BASE, PROXY_COUNT,
};

#[test]
fn proxy_block_bounds() {
    assert_eq!(PROXY_BASE, 0x6d63_6d00);
    assert_eq!(PROXY_COUNT, 2048);
    assert!(!is_proxy_id(PROXY_BASE - 1));
    assert!(is_proxy_id(PROXY_BASE));
    assert!(is_proxy_id(PROXY_BASE + 2047));
    assert!(!is_proxy_id(PROXY_BASE + 2048));
    assert!(!is_proxy_id(0));
    assert!(!is_proxy_id(u32::MAX));
}

#[test]
fn to_param_id_lays_out_channel_major() {
    assert_eq!(to_param_id(0, 0), Some(0x6d63_6d00));
    assert_eq!(to_param_id(0, 127), Some(0x6d63_6d7f));
    assert_eq!(to_param_id(1, 0), Some(0x6d63_6d80));
    assert_eq!(to_param_id(15, 127), Some(0x6d63_6d00 + 2047));
    assert_eq!(to_param_id(16, 0), None);
    assert_eq!(to_param_id(0, 128), None);
    assert_eq!(to_param_id(255, 255), None);
}

#[test]
fn from_param_id_rejects_outside_ids() {
    assert_eq!(from_param_id(0), None);
    assert_eq!(from_param_id(PROXY_BASE - 1), None);
    assert_eq!(from_param_id(PROXY_BASE + 2048), None);
    assert_eq!(from_param_id(u32::MAX), None);
    assert_eq!(from_param_id(PROXY_BASE), Some((0, 0)));
    assert_eq!(from_param_id(PROXY_BASE + 3 * 128 + 64), Some((3, 64)));
}

#[test]
fn param_ids_round_trip() {
    for ch in 0u8..16 {
        for cc in 0u8..128 {
            let id = to_param_id(ch, cc).unwrap();
            assert!(is_proxy_id(id));
            assert_eq!(from_param_id(id), Some((ch, cc)));
        }
    }
}

#[test]
fn iter_param_ids_lists_the_block_in_order() {
    let ids = iter_param_ids();
    assert_eq!(ids.len(), 2048);
    assert_eq!(ids[0], PROXY_BASE);
    assert_eq!(ids[2047], PROXY_BASE + 2047);
    for w in ids.windows(2) {
        assert_eq!(w[1], w[0] + 1);
    }
    assert!(ids.iter().all(|&id| is_proxy_id(id)));
}

#[test]
fn descriptors_name_every_controller() {
    let descs = descriptors();
    assert_eq!(descs.len(), 2048);
    assert_eq!(descs[0].id, PROXY_BASE);
    assert_eq!(descs[0].name, b"CC 0:0".to_vec());
    assert_eq!(descs[3 * 128 + 64].name, b"CC 3:64".to_vec());
    assert_eq!(descs[10 * 128 + 7].name, b"CC 10:7".to_vec());
    assert_eq!(descs[2047].name, b"CC 15:127".to_vec());
    for (i, d) in descs.iter().enumerate() {
        assert_eq!(d.id, PROXY_BASE + i as u32);
        assert_eq!(d.step_count, 127);
        assert_eq!(d.flags, 1);
        let (ch, cc) = from_param_id(d.id).unwrap();
        assert_eq!(d.name, format!("CC {ch}:{cc}").into_bytes());
    }
}

#[test]
fn proxy_enabled_follows_midi_input() {
    assert!(is_enabled(&PluginInfo { accepts_midi_in: true }));
    assert!(!is_enabled(&PluginInfo { accepts_midi_in: false }));
}
