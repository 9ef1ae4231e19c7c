use feo::shm::{
    format_error_response, format_ok_response, init_topic, mapping_id_for, parse_primary_response,
    unique_mapping_id, ComRuntime, LinuxShmInput, LinuxShmOutput, MappingMode, ReadWriteAccessControlPtr,
    TopicInitializationAgentRole, WRITE_LOCKED,
};

#[test]
fn lock_protocol_counts_readers_and_excludes_writers() {
    let mut ptr = ReadWriteAccessControlPtr::new_unmapped(7, 64, MappingMode::Write);
    assert!(!ptr.is_mapped());
    assert!(ptr.is_writable());
    ptr.map();
    assert!(ptr.is_mapped());
    assert!(!ptr.is_locked());
    let r1 = ptr.get(7);
    let r2 = ptr.get(7);
    assert_eq!(ptr.lock_state(), 2);
    assert!(ptr.is_locked());
    r1.release(&mut ptr);
    assert_eq!(ptr.lock_state(), 1);
    r2.release(&mut ptr);
    assert_eq!(ptr.lock_state(), 0);
    let w = ptr.get_mut(7);
    assert_eq!(w.type_tag, 7);
    assert_eq!(ptr.lock_state(), WRITE_LOCKED);
    assert!(ptr.is_locked());
    w.send(&mut ptr);
    assert_eq!(ptr.lock_state(), 0);
}

#[test]
fn read_mapping_is_not_writable() {
    let ptr = ReadWriteAccessControlPtr::new_unmapped(1, 8, MappingMode::Read);
    assert!(!ptr.is_writable());
}

#[test]
fn responses_have_the_documented_form() {
    assert_eq!(format_ok_response(4096, b"score_feo_AB"), b"ok\n4096\nscore_feo_AB".to_vec());
    assert_eq!(format_error_response(), b"error\ntopic not found".to_vec());
}

#[test]
fn primary_response_is_parsed_back() {
    let r = format_ok_response(123, b"score_feo_1F");
    assert_eq!(parse_primary_response(&r), Some((123, b"score_feo_1F".to_vec())));
    assert_eq!(parse_primary_response(&format_error_response()), None);
    assert_eq!(parse_primary_response(b"ok\nabc\nid"), None);
    assert_eq!(parse_primary_response(b"ok\n12"), None);
    assert_eq!(parse_primary_response(b""), None);
}

#[test]
fn mapping_ids_are_prefix_and_upper_hex() {
    assert_eq!(mapping_id_for(255), b"score_feo_FF".to_vec());
    assert_eq!(mapping_id_for(0), b"score_feo_0".to_vec());
    assert_eq!(mapping_id_for(0xDEADBEEF), b"score_feo_DEADBEEF".to_vec());
    let id = unique_mapping_id();
    assert!(id.starts_with(b"score_feo_"));
    assert!(id.len() > 10);
    assert!(id[10..].iter().all(|c| c.is_ascii_digit() || (b'A'..=b'F').contains(c)));
}

#[test]
fn runtime_serves_registered_topics() {
    let mut runtime = ComRuntime::new();
    init_topic(
        &mut runtime,
        b"camera",
        3,
        256,
        MappingMode::Write,
        TopicInitializationAgentRole::Primary { also_map: true },
        b"score_feo_10".to_vec(),
    );
    assert_eq!(runtime.find(b"camera"), Some(0));
    assert_eq!(runtime.find(b"radar"), None);
    let (answer, found) = runtime.serve_request(b"camera");
    assert!(found);
    assert_eq!(answer, b"ok\n256\nscore_feo_10".to_vec());
    let (answer, found) = runtime.serve_request(b"radar");
    assert!(!found);
    assert_eq!(answer, b"error\ntopic not found".to_vec());
}

#[test]
fn input_and_output_lock_the_topic() {
    let mut runtime = ComRuntime::new();
    init_topic(
        &mut runtime,
        b"t",
        9,
        16,
        MappingMode::Write,
        TopicInitializationAgentRole::Secondary,
        b"score_feo_2".to_vec(),
    );
    let mut output = LinuxShmOutput::new(&runtime, b"t", 9);
    let guard = output.write_uninit(&mut runtime);
    assert_eq!(runtime.topic_mapping(b"t", MappingMode::Read).lock_state(), WRITE_LOCKED);
    let guard = guard.assume_init();
    assert!(guard.send(&output, &mut runtime).is_ok());
    assert_eq!(runtime.topic_mapping(b"t", MappingMode::Read).lock_state(), 0);
    let input = LinuxShmInput::new(&runtime, b"t", 9);
    let g = input.read(&mut runtime);
    assert_eq!(runtime.topic_mapping(b"t", MappingMode::Read).lock_state(), 1);
    g.release(&input, &mut runtime);
    assert!(!runtime.topic_mapping(b"t", MappingMode::Read).is_locked());
}

#[test]
fn primary_without_local_mapping_leaves_topic_unmapped() {
    let mut runtime = ComRuntime::new();
    init_topic(
        &mut runtime,
        b"u",
        1,
        8,
        MappingMode::Read,
        TopicInitializationAgentRole::Primary { also_map: false },
        b"score_feo_3".to_vec(),
    );
    assert!(!runtime.topic_mapping(b"u", MappingMode::Read).is_mapped());
}
