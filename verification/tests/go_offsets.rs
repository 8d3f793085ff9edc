use mirrorscope::go::{GStructOffsets, GoLayout, GoVersion, LayoutSource};

#[test]
fn vendored_go_124_has_known_offsets() {
    let off = GStructOffsets::vendored(GoVersion::new(1, 24, 0)).expect("1.24 present");
    assert_eq!(off.goid, 160);
    assert_eq!(off.atomicstatus, 152);
    assert_eq!(off.sched_sp, 56);
    assert_eq!(off.sched_pc, 64);
    assert_eq!(off.parent_goid, Some(280));
}

#[test]
fn unknown_version_declines() {
    assert!(GStructOffsets::vendored(GoVersion::new(1, 30, 0)).is_none());
}

#[test]
fn slice_len_offset_follows_ptr_size() {
    let layout = GoLayout {
        ptr_size: 8,
        allgs_addr: 0x1000,
        allglen_addr: None,
        load_bias: 0,
        g: GStructOffsets::vendored(GoVersion::new(1, 24, 0)).expect("1.24"),
        m_procid: Some(72),
        source: LayoutSource::Vendored(GoVersion::new(1, 24, 0)),
    };
    assert_eq!(layout.slice_len_offset(), 8);
}
