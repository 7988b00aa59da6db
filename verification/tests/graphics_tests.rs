use rustmux::graphics::{kitty_graphics_uses_shared_memory, GraphicsCache, KittyGraphicsParser};

#[test]
fn snacks_file_and_latest_virtual_placement_survive_reattach() {
    let mut cache = GraphicsCache::default();
    cache.record(b"\x1b_Gt=f,i=42,f=100,q=1;L3RtcC9pbWcucG5n\x1b\\");
    cache.record(b"\x1b_Ga=p,U=1,i=42,p=11,c=10,r=5;\x1b\\");
    cache.record(b"\x1b_Ga=p,U=1,i=42,p=11,c=20,r=8;\x1b\\");
    let replay = cache.replay();
    assert_eq!(replay.len(), 2);
    assert_eq!(
        replay[0],
        b"\x1b_Gq=2,t=f,i=42,f=100;L3RtcC9pbWcucG5n\x1b\\"
    );
    assert_eq!(replay[1], b"\x1b_Gq=2,a=p,U=1,i=42,p=11,c=20,r=8;\x1b\\");
    assert_eq!(cache.replay(), replay);
    cache.record(b"\x1b_Ga=d,d=i,i=42,p=11\x1b\\");
    assert_eq!(cache.replay(), vec![replay[0].clone()]);
    cache.record(b"\x1b_Ga=d,d=I,i=42\x1b\\");
    assert!(cache.replay().is_empty());
}

#[test]
fn direct_chunks_resume_after_disconnect_without_losing_upload_prefix() {
    let mut cache = GraphicsCache::default();
    cache.record(b"\x1b_Gi=42,t=d,f=100,m=1;YWJj\x1b\\");
    let prefix = cache.replay();
    assert_eq!(prefix.len(), 1);
    cache.record(b"\x1b_Gm=0;ZA==\x1b\\");
    let replay = cache.replay();
    assert_eq!(replay.len(), 2);
    assert_eq!(replay[0], prefix[0]);
    assert!(replay[1].ends_with(b"m=0;ZA==\x1b\\"));
    cache.record(b"\x1b_Ga=d,d=A;\x1b\\");
    assert!(cache.replay().is_empty());
}

#[test]
fn consumed_transports_and_queries_are_not_replayed() {
    let mut cache = GraphicsCache::default();
    cache.record(b"\x1b_Ga=q,i=1;\x1b\\");
    cache.record(b"\x1b_Gt=s,i=2;L2ltZw==\x1b\\");
    cache.record(b"\x1b_Gt=t,i=3;L2ltZw==\x1b\\");
    assert!(cache.replay().is_empty());
    cache.record(b"\x9fGi=4;YWJj\x9c");
    assert_eq!(cache.replay(), vec![b"\x1b_Gq=2,i=4;YWJj\x1b\\".to_vec()]);
}

#[test]
fn complete_uploads_replay_before_an_interrupted_one_in_id_order() {
    let mut cache = GraphicsCache::new();
    cache.record(b"\x1b_Gi=9,m=1;AAAA\x1b\\");
    // A new upload cannot start while a chunked one is in progress: this chunk continues image 9.
    cache.record(b"\x1b_Gi=5;BBBB\x1b\\");
    cache.record(b"\x1b_Gi=7;CCCC\x1b\\");
    cache.record(b"\x1b_Gi=3,m=1;DDDD\x1b\\");
    assert_eq!(
        cache.replay(),
        vec![
            b"\x1b_Gq=2,i=7;CCCC\x1b\\".to_vec(),
            b"\x1b_Gq=2,i=9,m=1;AAAA\x1b\\".to_vec(),
            b"\x1b_Gq=2,i=5;BBBB\x1b\\".to_vec(),
            b"\x1b_Gq=2,i=3,m=1;DDDD\x1b\\".to_vec(),
        ]
    );
}

#[test]
fn physical_placements_and_unknown_images_are_not_retained() {
    let mut cache = GraphicsCache::new();
    cache.record(b"\x1b_Ga=p,U=1,i=8;\x1b\\");
    assert!(cache.replay().is_empty());
    cache.record(b"\x1b_Gi=8;QQ==\x1b\\");
    cache.record(b"\x1b_Ga=p,i=8,p=1;\x1b\\");
    cache.record(b"\x1b_Ga=p,U=1,i=8,p=2,q=1;\x1b\\");
    cache.record(b"text that is not a graphics command");
    assert_eq!(
        cache.replay(),
        vec![
            b"\x1b_Gq=2,i=8;QQ==\x1b\\".to_vec(),
            b"\x1b_Gq=2,a=p,U=1,i=8,p=2;\x1b\\".to_vec(),
        ]
    );
    cache.record(b"\x1b_Ga=d,d=a;\x1b\\");
    assert_eq!(cache.replay(), vec![b"\x1b_Gq=2,i=8;QQ==\x1b\\".to_vec()]);
}

#[test]
fn kitty_graphics_parser_handles_chunked_apc_commands() {
    let mut parser = KittyGraphicsParser::default();
    let command = b"\x1b_Ga=T,f=100,m=0;YWJj\x1b\\";

    let first = parser.process(b"text\x1b_Ga=T,f=100,");
    assert!(first.commands.is_empty());
    assert_eq!(first.terminal, b"text");
    let middle = parser.process(b"m=0;YWJj\x1b");
    assert!(middle.commands.is_empty());
    assert!(middle.terminal.is_empty());
    let last = parser.process(b"\\tail");
    assert_eq!(last.commands, vec![command.to_vec()]);
    assert_eq!(last.terminal, b"tail");

    let passthrough = parser.process(b"\x1b_not-kitty\x1b\\");
    assert!(passthrough.commands.is_empty());
    assert_eq!(passthrough.terminal, b"\x1b_not-kitty\x1b\\");
    let c1 = parser.process(b"\x9fGa=d,d=A\x9c");
    assert_eq!(c1.commands, vec![b"\x9fGa=d,d=A\x9c".to_vec()]);
    assert!(c1.terminal.is_empty());
}

#[test]
fn kitty_graphics_parser_does_not_treat_utf8_continuations_as_c1_controls() {
    let mut parser = KittyGraphicsParser::default();
    let command = b"\x1b_Gq=2,a=T,t=s,i=42;/yazi-image\x1b\\";

    let first = parser.process(&[0xf0]);
    assert_eq!(first.terminal, [0xf0]);
    assert!(first.commands.is_empty());

    let mut remainder = vec![0x9f, 0x93, 0x84]; // U+1F4C4 PAGE FACING UP
    remainder.extend_from_slice(command);
    let second = parser.process(&remainder);
    assert_eq!(second.terminal, [0x9f, 0x93, 0x84]);
    assert_eq!(second.commands, vec![command.to_vec()]);
}

#[test]
fn kitty_shared_memory_uploads_are_detected_for_immediate_forwarding() {
    assert!(kitty_graphics_uses_shared_memory(
        b"\x1b_Gq=2,a=T,t=s,S=534240,i=31;L3lhemktaW1hZ2U=\x1b\\"
    ));
    assert!(!kitty_graphics_uses_shared_memory(
        b"\x1b_Gq=2,a=T,t=d,f=24,i=31;AAAA\x1b\\"
    ));
}

#[test]
fn large_kitty_payload_is_forwarded_without_text_parsing() {
    let payload = vec![b'A'; 9 * 1024 * 1024];
    let mut command = b"\x1b_Ga=T,f=100,m=0;".to_vec();
    command.extend_from_slice(&payload);
    command.extend_from_slice(b"\x1b\\");

    let mut parser = KittyGraphicsParser::default();
    let parsed = parser.process(&command);

    assert_eq!(parsed.commands, vec![command]);
    assert!(parsed.terminal.is_empty());
}

#[test]
fn lone_introducers_are_released_as_text() {
    let mut parser = KittyGraphicsParser::new();
    let held = parser.process(b"a\x1b");
    assert_eq!(held.terminal, b"a");
    let released = parser.process(b"[1m\x9fx\x1b_\x1b_Gi=1;\x9c");
    assert_eq!(released.terminal, b"\x1b[1m\x9fx\x1b_");
    assert_eq!(released.commands, vec![b"\x1b_Gi=1;\x9c".to_vec()]);
    assert!(!kitty_graphics_uses_shared_memory(b"t=s"));
}

#[test]
fn a_bare_introducer_outside_an_upload_changes_nothing() {
    let mut cache = GraphicsCache::new();
    cache.record(b"\x1b_Gi=9;QQ==\x1b\\");
    let before = cache.replay();
    cache.record(b"\x1b_G");
    cache.record(b"\x9fG");
    assert_eq!(cache.replay(), before);
    assert_eq!(before, vec![b"\x1b_Gq=2,i=9;QQ==\x1b\\".to_vec()]);
}
