use btrbk_tui::mounts::{mounted_subvolume, subvolume_kind, SubvolumeKind};

const MOUNTINFO: &str = "\
23 1 0:21 /@ / rw,relatime shared:1 - btrfs /dev/nvme0n1p2 rw,subvol=/@
24 23 0:21 /@home /home rw,relatime shared:2 - btrfs /dev/nvme0n1p2 rw,subvol=/@home
25 23 0:21 / /mnt/btr_pool rw,relatime shared:3 - btrfs /dev/nvme0n1p2 rw,subvolid=5
26 23 0:22 / /tmp rw shared:4 - tmpfs tmpfs rw
27 24 0:21 /home /home rw,relatime shared:5 - btrfs /dev/sda1 rw,subvol=/home
";

#[test]
fn mounted_subvolumes_come_from_mountinfo() {
    let mountinfo = MOUNTINFO;
    assert_eq!(mounted_subvolume(mountinfo, "/").as_deref(), Some("@"));
    // mounted twice: the later mount hides the earlier one
    assert_eq!(mounted_subvolume(mountinfo, "/home").as_deref(), Some("home"));
    assert_eq!(mounted_subvolume(mountinfo, "/mnt/btr_pool").as_deref(), Some(""));
    assert_eq!(mounted_subvolume(mountinfo, "/tmp"), None);
    assert_eq!(mounted_subvolume(mountinfo, "/var"), None);
}

#[test]
fn broken_lines_are_passed_over() {
    assert_eq!(mounted_subvolume("", "/"), None);
    assert_eq!(mounted_subvolume("23 1 0:21 /@ / rw btrfs\n", "/"), None);
    assert_eq!(mounted_subvolume("23 1 0:21 /@ / rw - \n", "/"), None);
    assert_eq!(mounted_subvolume("a b c - btrfs x\n", "/"), None);
    assert_eq!(
        mounted_subvolume("1 2 3 //deep/er / rw - btrfs x\nno mount\n", "/").as_deref(),
        Some("deep/er")
    );
}

#[test]
fn root_and_home_are_recognised_by_name_or_mount() {
    assert_eq!(subvolume_kind("@", ""), SubvolumeKind::Root);
    assert_eq!(subvolume_kind("@home", ""), SubvolumeKind::Home);
    assert_eq!(subvolume_kind("@root", ""), SubvolumeKind::Other);
    assert_eq!(subvolume_kind("@games", MOUNTINFO), SubvolumeKind::Other);
    assert_eq!(subvolume_kind("home", MOUNTINFO), SubvolumeKind::Home);
    assert_eq!(
        subvolume_kind("rootfs", "1 2 3 /rootfs / rw - btrfs x\n"),
        SubvolumeKind::Root
    );
}
