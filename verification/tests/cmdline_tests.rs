use nimage::cmdline::{get_active_rootfs, get_inactive_rootfs, update_rootfs};

// an actual /proc/cmdline on a Pi4 (macaddr redacted)
const LONG_CMDLINE: &str = "\
        coherent_pool=1M 8250.nr_uarts=1 cma=64M bcm2708_fb.fbwidth=0 bcm2708_fb.fbheight=0 \
        bcm2708_fb.fbswap=1 smsc95xx.macaddr=DE:AD:BE:EF:12:34 vc_mem.mem_base=0x3ec00000 \
        vc_mem.mem_size=0x40000000  dwc_otg.lpm_enable=0 console=ttyAMA0,115200 \
        root=/dev/mmcblk0p3 ro rootwait";

#[test]
fn test_active_rootfs() {
    assert_eq!(get_active_rootfs(LONG_CMDLINE), Some("/dev/mmcblk0p3"));
    assert_eq!(get_active_rootfs("root=foobar"), Some("foobar"));
    assert_eq!(get_active_rootfs(""), None);
}

#[test]
fn test_inactive_rootfs() {
    assert_eq!(get_inactive_rootfs(LONG_CMDLINE), Some("/dev/mmcblk0p2"));
    assert_eq!(
        get_inactive_rootfs("foo bar root=/dev/mmcblk0p2 ro asdf=asdf"),
        Some("/dev/mmcblk0p3")
    );
    assert_eq!(get_inactive_rootfs(""), None);
    assert_eq!(get_inactive_rootfs("test root=/dev/sda1 rw"), None);
}

#[test]
fn test_update_rootfs() {
    let cmdline = "console=tty0 root=/dev/mmcblk0p2 ro rootwait";
    assert_eq!(
        update_rootfs(cmdline, "/dev/mmcblk0p3", true),
        "console=tty0 root=/dev/mmcblk0p3 rw rootwait"
    );
    assert_eq!(
        update_rootfs(cmdline, "/dev/sda1", false),
        "console=tty0 root=/dev/sda1 ro rootwait"
    );
    assert_eq!(
        update_rootfs("console=tty0 root=/dev/sda1 rootwait", "/dev/sdb1", false),
        "console=tty0 root=/dev/sdb1 rootwait ro"
    );
    assert_eq!(
        update_rootfs("", "/dev/mmcblk0p2", true),
        "root=/dev/mmcblk0p2 rw"
    );
}
