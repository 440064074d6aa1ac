use media_center::volumes::{
    block_device_disk_id, dedupe_by_path, fake_volume_roots, is_volume_mount, list_volume_roots,
    mount_candidates, mount_display_name, parse_mount_line, root_disk_id_from_mounts, unescape_mount_path,
    use_fake_volumes, watch_roots, macos_volume_roots, Platform, VolumeRoot,
};

fn volume(name: &str, path: &str) -> VolumeRoot {
    VolumeRoot { name: name.to_string(), path: path.to_string() }
}

#[test]
fn parse_mount_line_handles_spaces() {
    let line = "/dev/sda1 /media/pi/My\\040Disk ext4 rw,relatime 0 0";
    assert_eq!(
        parse_mount_line(line),
        Some(("/dev/sda1".to_string(), "/media/pi/My Disk".to_string(), "ext4".to_string()))
    );
}

#[test]
fn linux_usb_mount_is_volume() {
    assert!(is_volume_mount("/dev/sdb1", "/media/pi/USB_DRIVE", "vfat", Some("mmcblk0")));
    assert!(!is_volume_mount("/dev/mmcblk0p2", "/", "ext4", Some("mmcblk0")));
    assert!(!is_volume_mount("tmpfs", "/run", "tmpfs", Some("mmcblk0")));
}

#[test]
fn root_disk_partitions_are_never_volumes() {
    assert!(!is_volume_mount("/dev/mmcblk0p1", "/boot/firmware", "vfat", Some("mmcblk0")));
    assert!(!is_volume_mount("/dev/mmcblk0p2", "/mnt/bind-root", "ext4", Some("mmcblk0")));
}

#[test]
fn block_device_disk_id_parses_common_paths() {
    assert_eq!(block_device_disk_id("/dev/mmcblk0p2").as_deref(), Some("mmcblk0"));
    assert_eq!(block_device_disk_id("/dev/nvme0n1p2").as_deref(), Some("nvme0n1"));
    assert_eq!(block_device_disk_id("/dev/sda1").as_deref(), Some("sda"));
}

#[test]
fn block_device_disk_id_rejects_non_devices() {
    assert_eq!(block_device_disk_id("tmpfs"), None);
    assert_eq!(block_device_disk_id("/dev/"), None);
    assert_eq!(block_device_disk_id("/dev/123"), None);
    assert_eq!(block_device_disk_id("/dev/loop0p"), Some("loop0p".to_string()));
}

#[test]
fn mount_paths_are_unescaped() {
    assert_eq!(unescape_mount_path("a\\011b\\012c\\134d"), "a\tb\nc\\d");
    assert_eq!(unescape_mount_path("\\134040"), "\\040");
}

#[test]
fn short_lines_do_not_parse() {
    assert_eq!(parse_mount_line("/dev/sda1 /media"), None);
    assert_eq!(parse_mount_line("   "), None);
}

#[test]
fn mount_table_gives_the_volumes() {
    let table = "/dev/mmcblk0p2 / ext4 rw 0 0\n\
                 /dev/mmcblk0p1 /boot/firmware vfat rw 0 0\n\
                 proc /proc proc rw 0 0\n\
                 /dev/sda1 /media/pi/My\\040Disk exfat rw 0 0\n\
                 server:/share /mnt/nas nfs rw 0 0\n\
                 /dev/sdb1 /srv/data ext4 rw 0 0\n";
    assert_eq!(root_disk_id_from_mounts(table), Some("mmcblk0".to_string()));
    let found = mount_candidates(table);
    let names: Vec<(String, String)> = found.iter().map(|v| (v.name.clone(), v.path.clone())).collect();
    assert_eq!(
        names,
        vec![
            ("My Disk".to_string(), "/media/pi/My Disk".to_string()),
            ("data".to_string(), "/srv/data".to_string()),
        ]
    );
}

#[test]
fn display_name_is_the_last_component() {
    assert_eq!(mount_display_name("/media/pi/USB"), "USB");
    assert_eq!(mount_display_name("/"), "/");
}

#[test]
fn duplicates_by_path_are_dropped_and_names_sorted() {
    let deduped = dedupe_by_path(vec![volume("b", "/m/2"), volume("a", "/m/1"), volume("c", "/m/2")]);
    let paths: Vec<&str> = deduped.iter().map(|v| v.path.as_str()).collect();
    assert_eq!(paths, vec!["/m/1", "/m/2"]);
    assert_eq!(deduped[1].name, "b");
    let listed = list_volume_roots(vec![volume("volumeE", "/e"), volume("Zed", "/z"), volume("volumeD", "/d")]);
    let names: Vec<&str> = listed.iter().map(|v| v.name.as_str()).collect();
    assert_eq!(names, vec!["Zed", "volumeD", "volumeE"]);
}

#[test]
fn development_switch_and_folders() {
    assert!(use_fake_volumes(Some(" yes ")));
    assert!(use_fake_volumes(Some("1")));
    assert!(!use_fake_volumes(Some("Yes")));
    assert!(!use_fake_volumes(None));
    let found = fake_volume_roots(vec![
        ("volumeD".to_string(), "/w/volumeD".to_string(), true),
        ("volume.txt".to_string(), "/w/volume.txt".to_string(), false),
        ("src".to_string(), "/w/src".to_string(), true),
    ]);
    assert_eq!(found.len(), 1);
    assert_eq!(found[0].name, "volumeD");
    assert_eq!(watch_roots(true, Platform::Linux, "/w"), vec!["/w".to_string()]);
    assert_eq!(watch_roots(false, Platform::Linux, "/w").len(), 3);
}

#[test]
fn watched_mount_parents_depend_on_the_platform() {
    assert_eq!(
        watch_roots(false, Platform::Linux, "/w"),
        vec!["/media".to_string(), "/mnt".to_string(), "/run/media".to_string()]
    );
    assert_eq!(watch_roots(false, Platform::MacOs, "/w"), vec!["/Volumes".to_string()]);
    assert!(watch_roots(false, Platform::Other, "/w").is_empty());
    assert_eq!(watch_roots(true, Platform::Other, "/w"), vec!["/w".to_string()]);
}

#[test]
fn macos_volumes_leave_out_the_system_disk() {
    let found = macos_volume_roots(vec![
        ("Macintosh HD".to_string(), "/Volumes/Macintosh HD".to_string(), true),
        ("USB".to_string(), "/Volumes/USB".to_string(), true),
        ("note".to_string(), "/Volumes/note".to_string(), false),
    ]);
    assert_eq!(found.len(), 1);
    assert_eq!(found[0].name, "USB");
    assert_eq!(found[0].path, "/Volumes/USB");
}
