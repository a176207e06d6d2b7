use bpm::btrfs::command::{
    create_args, defragment_args, delete_args, du_args, find_in_listing, list_args, parse_du,
    readonly_args, receive_args, send_args, snapshot_args, Mutation,
};
use bpm::btrfs::fake::{read_header, stream_header, DirFacts, FakeBtrfs, Key};
use bpm::btrfs::ioctl::{
    parse_args, ARGS_SIZE, BTRFS_IOC_GET_SUBVOL_INFO, OFF_CTRANSID, OFF_FLAGS, OFF_GENERATION,
    OFF_NAME, OFF_OTIME, OFF_OTRANSID, OFF_PARENT_UUID, OFF_TREEID, OFF_UUID,
};
use bpm::btrfs::{DefragOpts, SubvolInfo, Uuid};
use bpm::util::time::Timestamp;

#[test]
fn request_code_matches_ior_encoding() {
    // _IOR(type, nr, size) = (2 << 30) | (size << 16) | (type << 8) | nr
    let code = (2u64 << 30) | ((ARGS_SIZE as u64) << 16) | (0x94 << 8) | 60;
    assert_eq!(code, BTRFS_IOC_GET_SUBVOL_INFO);
}

#[test]
fn parses_layout() {
    let mut b = [0u8; ARGS_SIZE];
    b[OFF_TREEID..OFF_TREEID + 8].copy_from_slice(&260u64.to_le_bytes());
    b[OFF_NAME..OFF_NAME + 6].copy_from_slice(b"@space");
    b[OFF_GENERATION..OFF_GENERATION + 8].copy_from_slice(&202402u64.to_le_bytes());
    b[OFF_FLAGS..OFF_FLAGS + 8].copy_from_slice(&1u64.to_le_bytes());
    b[OFF_UUID] = 0x0b;
    b[OFF_PARENT_UUID + 15] = 0x49;
    b[OFF_CTRANSID..OFF_CTRANSID + 8].copy_from_slice(&202388u64.to_le_bytes());
    b[OFF_OTRANSID..OFF_OTRANSID + 8].copy_from_slice(&202392u64.to_le_bytes());
    b[OFF_OTIME..OFF_OTIME + 8].copy_from_slice(&1_789_393_407u64.to_le_bytes());
    let i = parse_args(&b);
    assert_eq!(i.id, 260);
    assert_eq!(i.name, "@space");
    assert_eq!(i.generation, 202402);
    assert!(i.readonly());
    assert_eq!(i.uuid.0[0], 0x0b);
    assert_eq!(i.parent_uuid.unwrap().0[15], 0x49);
    assert!(i.received_uuid.is_none());
    assert_eq!((i.ctransid, i.otransid), (202388, 202392));
    assert!(i.ctime.is_none());
    assert_eq!(i.otime.unwrap().as_second(), 1_789_393_407);
}

#[test]
fn malformed_names_are_read_all_the_same() {
    let mut b = [0u8; ARGS_SIZE];
    b[OFF_NAME] = b'a';
    b[OFF_NAME + 1] = 0xff;
    b[OFF_NAME + 2] = b'b';
    assert_eq!(parse_args(&b).name, "a\u{fffd}b");
}

#[test]
fn uuid_roundtrip() {
    let u: Uuid = Uuid::parse("0bef9140-c16b-c14b-ad73-bf3dbed73949").unwrap();
    assert_eq!(u.to_string(), "0bef9140-c16b-c14b-ad73-bf3dbed73949");
    assert_eq!(u.short(), "0bef9140");
    assert!(!u.is_nil());
    assert!(Uuid::nil().is_nil());
}

#[test]
fn malformed_uuids_are_refused() {
    assert!(Uuid::parse("0bef9140").is_err());
    assert!(Uuid::parse("zbef9140-c16b-c14b-ad73-bf3dbed73949").is_err());
}

#[test]
fn du_parsing() {
    let s = "     Total   Exclusive  Set shared  Filename\n2147483648           0  1556925644  /space/slime_os\n";
    let d = parse_du(s).unwrap();
    assert_eq!((d.total, d.exclusive, d.set_shared), (2147483648, 0, 1556925644));
    let s2 = "     Total   Exclusive  Set shared  Filename\n  4096   4096   -  /x\n";
    assert_eq!(parse_du(s2).unwrap().set_shared, 0);
}

#[test]
fn du_without_figures_is_an_error() {
    assert!(parse_du("").is_err());
    assert!(parse_du("     Total   Exclusive  Set shared  Filename\n").is_err());
}

#[test]
fn command_lines() {
    assert_eq!(create_args("/s/x"), vec!["subvolume", "create", "/s/x"]);
    assert_eq!(snapshot_args("/s/x", "/s/y", true), vec!["subvolume", "snapshot", "-r", "/s/x", "/s/y"]);
    assert_eq!(snapshot_args("/s/x", "/s/y", false), vec!["subvolume", "snapshot", "/s/x", "/s/y"]);
    assert_eq!(readonly_args("/s/x", true), vec!["property", "set", "-f", "-ts", "/s/x", "ro", "true"]);
    assert_eq!(delete_args("/s/x", true), vec!["subvolume", "delete", "-R", "/s/x"]);
    assert_eq!(delete_args("/s/x", false), vec!["subvolume", "delete", "/s/x"]);
    assert_eq!(du_args("/s/x"), vec!["filesystem", "du", "-s", "--raw", "/s/x"]);
    assert_eq!(send_args("/s/x", true), vec!["send", "-q", "--compressed-data", "/s/x"]);
    assert_eq!(send_args("/s/x", false), vec!["send", "-q", "/s/x"]);
    assert_eq!(receive_args("/s"), vec!["receive", "-q", "/s"]);
    assert_eq!(list_args("/s"), vec!["subvolume", "list", "-u", "-a", "/s"]);
    let d = DefragOpts { compress: "zstd".into(), level: Some(9), flush: true };
    assert_eq!(
        defragment_args("/s/x", &d),
        vec!["filesystem", "defragment", "-r", "-czstd", "-L", "9", "-f", "/s/x"]
    );
}

#[test]
fn dry_runs_say_what_they_would_do() {
    let m = Mutation::Snapshot { src: "/a".into(), dst: "/b".into(), readonly: true };
    assert_eq!(m.describe(), "[dry-run] btrfs subvolume snapshot -r /a /b");
    let m = Mutation::Defragment { path: "/a".into(), compress: "zstd".into(), level: Some(9) };
    assert_eq!(m.describe(), "[dry-run] btrfs filesystem defragment -r -czstd Some(9) /a");
    let m = Mutation::SetReadonly { path: "/a".into(), ro: false };
    assert_eq!(m.describe(), "[dry-run] btrfs property set /a ro false");
}

#[test]
fn subvolumes_are_found_by_their_uuid() {
    let u = Uuid::parse("0bef9140-c16b-c14b-ad73-bf3dbed73949").unwrap();
    let out = "ID 256 gen 10 top level 5 uuid 11111111-1111-1111-1111-111111111111 path a\n\
               ID 257 gen 11 top level 5 uuid 0bef9140-c16b-c14b-ad73-bf3dbed73949 path b/c\n";
    assert_eq!(find_in_listing(out, &u), Some("b/c".to_string()));
    assert_eq!(find_in_listing("", &u), None);
}

const NOW: Timestamp = Timestamp { ns: 0 };

fn dir(ino: u64, fingerprint: u64) -> DirFacts {
    DirFacts { key: (1, ino), fingerprint }
}

/// A root with a project in it and a nested subvolume in that, all flushed.
fn three_levels() -> FakeBtrfs {
    let mut fb = FakeBtrfs::new();
    fb.register_existing("/r", Some(dir(1, 10)), NOW, Uuid([1; 16])).unwrap();
    fb.create_subvolume("/r/proj", Some(dir(2, 20)), NOW, Uuid([2; 16])).unwrap();
    fb.create_subvolume("/r/proj/target", Some(dir(3, 30)), NOW, Uuid([3; 16])).unwrap();
    fb.sync(&tree(11, 21, 31), NOW);
    fb
}

fn tree(root: u64, proj: u64, target: u64) -> Vec<(String, DirFacts)> {
    vec![
        ("/r".into(), dir(1, root)),
        ("/r/proj".into(), dir(2, proj)),
        ("/r/proj/src".into(), dir(9, 0)),
        ("/r/proj/target".into(), dir(3, target)),
    ]
}

fn info(fb: &FakeBtrfs, ino: u64) -> SubvolInfo {
    fb.subvol_info("/x", &vec![dir(ino, 0)]).unwrap()
}

#[test]
fn counters_follow_kernel_rules() {
    let mut fb = three_levels();
    let before = info(&fb, 2);

    fb.snapshot("/r/proj", Some(dir(2, 21)), "/r/s1", Some(dir(4, 22)), true, NOW, Uuid([4; 16])).unwrap();
    let s = info(&fb, 4);
    let after = info(&fb, 2);
    assert_eq!(s.ctransid, before.ctransid, "snapshot inherits ctransid");
    assert_eq!(after.ctransid, before.ctransid, "snapshotting does not bump ctransid");
    assert_eq!(after.generation, s.otransid, "source generation bumped to otransid");
    assert_eq!(s.parent_uuid, Some(before.uuid));
    assert!(s.readonly());
    assert_eq!(s.name, "s1");

    // what is written in the nested subvolume leaves the fingerprint of the project as it is
    fb.sync(&tree(12, 21, 32), NOW);
    assert_eq!(info(&fb, 2).ctransid, before.ctransid, "nested write invisible");
    let removed = tree(12, 23, 32);
    assert_eq!(info(&fb, 2).ctransid, before.ctransid, "not flushed yet");
    fb.sync(&removed, NOW);
    assert!(info(&fb, 2).ctransid > before.ctransid, "delete bumps ctransid once flushed");

    // rename keeps identity
    assert!(fb.is_subvolume(Some((1, 2))));
    let below: Vec<Key> = vec![(1, 9), (1, 3)];
    assert!(fb.delete_subvolume("/r/renamed", Some((1, 2)), &below, false).is_err(), "nested subvolume blocks delete");
    fb.delete_subvolume("/r/renamed", Some((1, 2)), &below, true).unwrap();
    assert!(!fb.is_subvolume(Some((1, 2))) && !fb.is_subvolume(Some((1, 3))));
    assert!(fb.is_subvolume(Some((1, 4))));
}

#[test]
fn send_receive_roundtrip() {
    let mut fb = three_levels();
    fb.snapshot("/r/proj", Some(dir(2, 21)), "/r/snapshot", Some(dir(4, 22)), true, NOW, Uuid([4; 16])).unwrap();
    let sent = info(&fb, 4);
    let (name, uuid) = read_header(&stream_header("snapshot", &sent.uuid)).unwrap();
    assert_eq!(name, "snapshot");
    fb.receive("/r/recv/snapshot", dir(5, 22), uuid, NOW, Uuid([5; 16]));
    let got = info(&fb, 5);
    assert_eq!(got.received_uuid, Some(sent.uuid));
    assert!(got.readonly() && got.parent_uuid.is_none());
    assert_eq!(
        stream_header("a", &Uuid::nil()),
        "FAKEBTRFS a 00000000-0000-0000-0000-000000000000\n"
    );
    for (line, why) in [
        ("", "fake receive: bad stream"),
        ("BTRFS a b\n", "fake receive: bad stream"),
        ("FAKEBTRFS\n", "name"),
        ("FAKEBTRFS a\n", "uuid"),
        ("FAKEBTRFS a b\n", "invalid uuid \"b\""),
    ] {
        assert_eq!(read_header(line).unwrap_err(), why);
    }
}

#[test]
fn what_the_model_refuses() {
    let mut fb = FakeBtrfs::new();
    let id = Uuid([1; 16]);
    let err = |r: Result<(), String>| r.unwrap_err();
    assert_eq!(err(fb.register_existing("/r", None, NOW, id)), "fake: /r is not a directory");
    assert_eq!(err(fb.create_subvolume("/r", None, NOW, id)), "fake: create /r: File exists");
    let d = Some(dir(1, 1));
    assert_eq!(
        err(fb.snapshot("/a", d, "/b", Some(dir(2, 1)), true, NOW, id)),
        "fake: snapshot source /a is not a subvolume"
    );
    assert_eq!(err(fb.delete_subvolume("/a", None, &vec![], true)), "fake: delete /a: not found");
    assert_eq!(err(fb.delete_subvolume("/a", Some((1, 1)), &vec![], true)), "fake: delete /a: not a subvolume");
    assert_eq!(err(fb.set_readonly("/a", None, true)), "fake: set ro: not found");
    assert_eq!(err(fb.set_readonly("/a", Some((1, 1)), true)), "fake: set ro: not a subvolume");
    let zstd = DefragOpts { compress: "zstd".into(), level: Some(9), flush: true };
    assert_eq!(err(fb.defragment("/a", &vec![dir(1, 1)], &zstd, NOW)), "fake: /a is not inside a subvolume");
    assert_eq!(fb.subvol_info("/a", &vec![]).unwrap_err(), "fake: /a is not inside a subvolume");
    fb.register_existing("/a", d, NOW, id).unwrap();
    assert_eq!(err(fb.snapshot("/a", d, "/b", None, true, NOW, id)), "fake: snapshot target /b exists");
    assert!(fb.ops().is_empty());
}

#[test]
fn what_the_model_notes() {
    let mut fb = three_levels();
    fb.clear_ops();
    fb.snapshot("/a", Some(dir(2, 21)), "/b", Some(dir(4, 22)), false, NOW, Uuid([4; 16])).unwrap();
    fb.set_readonly("/b", Some((1, 4)), true).unwrap();
    let before = info(&fb, 2);
    let zstd = DefragOpts { compress: "zstd".into(), level: Some(9), flush: true };
    fb.defragment("/a/src", &vec![dir(9, 0), dir(2, 21), dir(1, 11)], &zstd, NOW).unwrap();
    assert!(info(&fb, 2).ctransid > before.ctransid);
    fb.delete_subvolume("/b", Some((1, 4)), &vec![], false).unwrap();
    assert_eq!(
        fb.ops(),
        vec!["snapshot /a /b", "ro=true /b", "defrag -czstd Some(9) /a/src", "delete /b"]
    );
    fb.set_free(7);
    assert_eq!((fb.statfs().total, fb.statfs().free), (400 << 30, 7));
    let du = fb.du(&vec![3, 4]);
    assert_eq!((du.total, du.exclusive, du.set_shared), (7, 0, 7));
    let at = vec![Some((1, 1)), None, Some((1, 3))];
    assert_eq!(fb.find_by_uuid(&Uuid([3; 16]), &at), Some("/r/proj/target".to_string()));
    assert_eq!(fb.find_by_uuid(&Uuid([2; 16]), &at), None);
}
