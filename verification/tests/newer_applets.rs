use rustfs_applets::applets::fsck;
use rustfs_applets::applets::ftpd::{self, FtpStep};
use rustfs_applets::applets::hdparm;
use rustfs_applets::applets::hwclock::{self, HwclockAction};
use rustfs_applets::applets::id::{self, IdQuery};
use rustfs_applets::applets::ifconfig;
use rustfs_applets::applets::ifup::{self, IfupPlan};
use rustfs_applets::applets::ip;
use rustfs_applets::applets::ipcs;
use rustfs_applets::applets::kexec::{self, KexecPlan};
use rustfs_applets::applets::klogd;
use rustfs_applets::applets::less;
use rustfs_applets::applets::ln::{self, LnError};
use rustfs_applets::applets::login::{self, ShadowVerdict};
use rustfs_applets::applets::logname;
use rustfs_applets::applets::logread;
use rustfs_applets::applets::losetup::{self, LosetupPlan};

fn words(ws: &[&str]) -> Vec<String> {
    ws.iter().map(|w| w.to_string()).collect()
}

#[test]
fn kexec_load_with_initrd_and_append() {
    let p = kexec::plan(&words(&["-l", "/boot/vmlinuz", "--initrd=/boot/initrd", "--append=quiet root=/dev/sda1"]));
    match p {
        KexecPlan::Load { kernel, initrd, cmdline, then_exec } => {
            assert_eq!(kernel, "/boot/vmlinuz");
            assert_eq!(initrd, Some("/boot/initrd".to_string()));
            assert_eq!(cmdline, "quiet root=/dev/sda1");
            assert!(!then_exec);
        }
        _ => panic!("expected a load"),
    }
}

#[test]
fn kexec_force_loads_and_boots() {
    let p = kexec::plan(&words(&["-f", "-i", "initrd.img", "bzImage"]));
    match p {
        KexecPlan::Load { kernel, initrd, then_exec, .. } => {
            assert_eq!(kernel, "bzImage");
            assert_eq!(initrd.as_deref(), Some("initrd.img"));
            assert!(then_exec);
        }
        _ => panic!("expected a load"),
    }
}

#[test]
fn kexec_other_plans() {
    assert!(matches!(kexec::plan(&words(&["-u", "-l", "k"])), KexecPlan::Unload));
    assert!(matches!(kexec::plan(&words(&["-e"])), KexecPlan::Exec));
    assert!(matches!(kexec::plan(&words(&[])), KexecPlan::Usage));
    assert!(matches!(kexec::plan(&words(&["-l"])), KexecPlan::NoKernel));
    assert!(matches!(kexec::plan(&words(&["-h", "-x"])), KexecPlan::Help));
    match kexec::plan(&words(&["-x"])) {
        KexecPlan::UnknownOption(a) => assert_eq!(a, "-x"),
        _ => panic!("expected an unknown option"),
    }
    match kexec::plan(&words(&["-l", "k", "--append"])) {
        KexecPlan::MissingValue(o) => assert_eq!(o, "--append"),
        _ => panic!("expected a missing value"),
    }
    match kexec::plan(&words(&["-i"])) {
        KexecPlan::MissingValue(o) => assert_eq!(o, "--initrd"),
        _ => panic!("expected a missing value"),
    }
}

#[test]
fn kexec_flags_and_status() {
    assert_eq!(kexec::load_flags(true), 0);
    assert_eq!(kexec::load_flags(false), kexec::KEXEC_FILE_NO_INITRAMFS);
    assert_eq!(kexec::exit_status(&KexecPlan::Help, false, false), 0);
    assert_eq!(kexec::exit_status(&KexecPlan::Usage, true, true), 1);
    let p = kexec::plan(&words(&["-l", "k"]));
    assert_eq!(kexec::exit_status(&p, true, false), 0);
    assert_eq!(kexec::exit_status(&p, false, false), 1);
}

#[test]
fn losetup_plans() {
    assert!(matches!(losetup::plan(&words(&[])), LosetupPlan::ShowAll));
    assert!(matches!(losetup::plan(&words(&["-r"])), LosetupPlan::ShowAll));
    assert!(matches!(losetup::plan(&words(&["--help"])), LosetupPlan::Help));
    assert!(matches!(losetup::plan(&words(&["-D", "-d", "/dev/loop0"])), LosetupPlan::DetachAll));
    assert!(matches!(losetup::plan(&words(&["-d"])), LosetupPlan::DetachMissing));
    match losetup::plan(&words(&["-d", "/dev/loop3"])) {
        LosetupPlan::Detach(d) => assert_eq!(d, "/dev/loop3"),
        _ => panic!("expected a detach"),
    }
    match losetup::plan(&words(&["-r", "-o", "4096", "/dev/loop1", "disk.img"])) {
        LosetupPlan::Setup { device, file, read_only, offset } => {
            assert_eq!(device, "/dev/loop1");
            assert_eq!(file, "disk.img");
            assert!(read_only);
            assert_eq!(offset, 4096);
        }
        _ => panic!("expected a setup"),
    }
    match losetup::plan(&words(&["-f", "-o", "x", "disk.img"])) {
        LosetupPlan::FindFree { target, offset, .. } => {
            assert_eq!(target.as_deref(), Some("disk.img"));
            assert_eq!(offset, 0);
        }
        _ => panic!("expected a search"),
    }
}

#[test]
fn losetup_lines() {
    assert_eq!(losetup::free_device(7), Some("/dev/loop7".to_string()));
    assert_eq!(losetup::free_device(-1), None);
    assert!(losetup::is_loop_name("loop12"));
    assert!(!losetup::is_loop_name("sda"));
    assert_eq!(losetup::status_line("loop0", " /tmp/a.img\n", "0\n"), "/dev/loop0: []: (/tmp/a.img), offset 0");
}

#[test]
fn login_arguments() {
    let a = login::parse_args(&words(&["-p", "alice", "bob"])).unwrap();
    assert!(a.preserve_env);
    assert_eq!(a.username, "bob");
    let a = login::parse_args(&words(&["-f"])).unwrap();
    assert!(!a.preserve_env);
    assert_eq!(a.username, "");
    assert!(login::parse_args(&words(&["--help"])).is_none());
}

#[test]
fn login_shadow() {
    let t = "root:$6$abc:19000::::::\nlocked:!:1::::::\nopen::1::::::\n";
    match login::shadow_verdict(Some(t), "root", "pw") {
        ShadowVerdict::Check(h) => assert_eq!(h, "$6$abc"),
        _ => panic!("expected a check"),
    }
    assert!(matches!(login::shadow_verdict(Some(t), "locked", ""), ShadowVerdict::Denied));
    assert!(matches!(login::shadow_verdict(Some(t), "open", ""), ShadowVerdict::Granted));
    match login::shadow_verdict(Some(t), "open", "x") {
        ShadowVerdict::Check(h) => assert_eq!(h, ""),
        _ => panic!("expected a check"),
    }
    assert!(matches!(login::shadow_verdict(Some(t), "nobody", ""), ShadowVerdict::Denied));
    assert!(matches!(login::shadow_verdict(None, "root", ""), ShadowVerdict::Denied));
}

#[test]
fn login_passwd_and_shell() {
    let t = "root:x:0:0:root:/root:/bin/bash\nbad:x:a:0::/:/bin/sh\nbad:x:5:5::/home/bad:/bin/sh\n";
    let u = login::user_info(Some(t), "root").unwrap();
    assert_eq!((u.uid, u.gid), (0, 0));
    assert_eq!(u.home, "/root");
    assert_eq!(u.shell, "/bin/bash");
    assert!(login::user_info(Some(t), "bad").is_none());
    assert!(login::user_info(Some(t), "ghost").is_none());
    assert!(login::user_info(None, "root").is_none());
    assert_eq!(login::shell_arg0("/bin/bash"), "-bash");
    assert_eq!(login::shell_arg0("/"), "-sh");
}

#[test]
fn hwclock_options_and_lines() {
    let a = hwclock::parse_args(&words(&["-w", "-l"])).unwrap();
    assert!(!a.show && a.systohc && !a.utc);
    assert!(hwclock::action(&a) == HwclockAction::SystemToHardware);
    let a = hwclock::parse_args(&words(&["-s", "-r"])).unwrap();
    assert!(hwclock::action(&a) == HwclockAction::Show);
    let a = hwclock::parse_args(&words(&["-s"])).unwrap();
    assert!(hwclock::action(&a) == HwclockAction::HardwareToSystem);
    assert!(hwclock::parse_args(&words(&["-h"])).is_none());
    assert_eq!(hwclock::sysfs_line("2024-01-02\n", "03:04:05\n"), Some("2024-01-02 03:04:05".to_string()));
    assert_eq!(hwclock::sysfs_line("", "03:04:05\n"), None);
    assert_eq!(hwclock::rtc_line(124, 0, 2, 3, 4, 5), "2024-01-02 03:04:05");
    assert_eq!(hwclock::rtc_line(-1905, 0, 2, 3, 4, 5), "-005-01-02 03:04:05");
    assert_eq!(hwclock::system_time_line(1700000000), "System time: 1700000000 seconds since epoch");
}

#[test]
fn less_pager() {
    assert_eq!(less::parse_args(&words(&["-N", "a.txt", "b.txt"])).unwrap(), words(&["a.txt", "b.txt"]));
    assert!(less::parse_args(&words(&["a", "--help"])).is_none());
    assert_eq!(less::combine(&words(&["a"]), &words(&["x\n"])), "x\n");
    assert_eq!(
        less::combine(&words(&["a", "b"]), &words(&["x\n", "y\n"])),
        ":::::::::::\na\n:::::::::::\nx\n:::::::::::\nb\n:::::::::::\ny\n"
    );
    assert_eq!(less::page_size(25), 24);
    assert_eq!(less::page_size(1), 24);
    assert_eq!(less::page_end(90, 24, 100), 100);
    assert_eq!(less::page_end(10, 24, 100), 34);
    assert_eq!(less::next_offset(Some(b'q'), 0, 24, 24, 100), None);
    assert_eq!(less::next_offset(None, 0, 24, 24, 100), None);
    assert_eq!(less::next_offset(Some(b' '), 0, 24, 24, 100), Some(24));
    assert_eq!(less::next_offset(Some(b'b'), 10, 34, 24, 100), Some(0));
    assert_eq!(less::next_offset(Some(b'j'), 10, 34, 24, 100), Some(11));
    assert_eq!(less::next_offset(Some(b'k'), 0, 24, 24, 100), Some(0));
    assert_eq!(less::next_offset(Some(b'g'), 50, 74, 24, 100), Some(0));
    assert_eq!(less::next_offset(Some(b'G'), 0, 24, 24, 100), Some(76));
}

#[test]
fn fsck_options_and_checker() {
    let a = fsck::parse_args(&words(&["-y", "-t", "ext2", "-v", "/dev/sda1", "/dev/sdb1"])).unwrap();
    assert!(a.auto_repair && a.verbose && !a.no_action);
    assert_eq!(a.fstype.as_deref(), Some("ext2"));
    assert_eq!(a.devices, words(&["/dev/sda1", "/dev/sdb1"]));
    assert!(fsck::parse_args(&words(&["--help"])).is_none());
    assert_eq!(fsck::helper_name("ext4"), "fsck.ext4");
    assert_eq!(fsck::helper_args(true, true, "/dev/sda1"), words(&["-p", "-n", "/dev/sda1"]));
    assert_eq!(fsck::helper_args(false, false, "d"), words(&["d"]));
    let mut img = vec![0u8; 2048];
    assert!(!fsck::has_ext_magic(&img));
    img[1080] = 0x53;
    img[1081] = 0xEF;
    assert!(fsck::has_ext_magic(&img));
    assert_eq!(fsck::detect_fstype(Some(&img)), "ext4");
    assert_eq!(fsck::detect_fstype(None), "ext4");
    assert_eq!(fsck::helper_status(None), 1);
    assert_eq!(fsck::add_status(fsck::add_status(0, 4), 1), 5);
    assert_eq!(fsck::add_status(4, 0), 4);
    assert_eq!(fsck::clean_line("/dev/sda1"), "/dev/sda1: clean (basic check only)");
}

#[test]
fn ifup_plans_and_table() {
    assert!(matches!(ifup::plan(&words(&["eth0", "-a"])), IfupPlan::All));
    assert!(matches!(ifup::plan(&words(&["-h", "-a"])), IfupPlan::Help));
    assert!(matches!(ifup::plan(&words(&["-x"])), IfupPlan::Usage));
    match ifup::plan(&words(&["eth0", "wlan0"])) {
        IfupPlan::Up(v) => assert_eq!(v, words(&["eth0", "wlan0"])),
        _ => panic!("expected interfaces"),
    }
    let table = "Inter-|   Receive\n face |bytes\n    lo: 1 2 3\n  eth0: 4 5 6\nbroken line\n";
    assert_eq!(ip::interface_names(table), words(&["lo", "eth0"]));
    assert_eq!(ip::interface_names("only\n"), Vec::<String>::new());
    assert_eq!(ifup::script_path("eth0"), "/etc/network/if-up.d/eth0");
    assert_eq!(ifup::up_line("eth0"), "ifup: interface eth0 is up");
}

#[test]
fn ftpd_options() {
    let a = ftpd::parse_args(&words(&["-p", "2121", "-w", "/pub"])).unwrap();
    assert_eq!((a.root.as_str(), a.port, a.anonymous_only), ("/pub", 2121, false));
    let a = ftpd::parse_args(&words(&["-p", "99999"])).unwrap();
    assert_eq!((a.root.as_str(), a.port, a.anonymous_only), ("/srv/ftp", 21, true));
    assert!(ftpd::parse_args(&words(&["-h"])).is_none());
    assert_eq!(ftpd::bind_address(21), "0.0.0.0:21");
}

#[test]
fn ftpd_session() {
    match ftpd::respond("  user anonymous\r", "/") {
        FtpStep::Reply(r) => assert_eq!(r, "230 Login successful\r\n"),
        _ => panic!("expected a reply"),
    }
    match ftpd::respond("pwd", "/pub") {
        FtpStep::Reply(r) => assert_eq!(r, "257 \"/pub\"\r\n"),
        _ => panic!("expected a reply"),
    }
    match ftpd::respond("CWD docs", "/pub") {
        FtpStep::ChangeDir(d) => assert_eq!(d, "/pub/docs"),
        _ => panic!("expected a change"),
    }
    match ftpd::respond("CWD /etc", "/pub") {
        FtpStep::ChangeDir(d) => assert_eq!(d, "/etc"),
        _ => panic!("expected a change"),
    }
    assert!(matches!(ftpd::respond("LIST", "/"), FtpStep::List));
    assert!(matches!(ftpd::respond("quit", "/"), FtpStep::Quit));
    match ftpd::respond("RETR x", "/") {
        FtpStep::Reply(r) => assert_eq!(r, "502 Command not implemented\r\n"),
        _ => panic!("expected a reply"),
    }
    match ftpd::command_step("SYST", "", "/") {
        FtpStep::Reply(r) => assert_eq!(r, "215 UNIX Type: L8\r\n"),
        _ => panic!("expected a reply"),
    }
    assert_eq!(ftpd::disk_path("/srv/ftp", "/pub/docs"), "/srv/ftp/pub/docs");
    assert_eq!(ftpd::entry_line("a.txt"), "a.txt\r\n");
    assert_eq!(ftpd::cwd_reply(true), "250 OK\r\n");
    assert_eq!(ftpd::cwd_reply(false), "550 Failed to change directory\r\n");
}

#[test]
fn ipcs_options_and_rows() {
    let a = ipcs::parse_args(&words(&["-q"])).unwrap();
    assert!(!a.shm && a.msg && !a.sem);
    let a = ipcs::parse_args(&words(&[])).unwrap();
    assert!(a.shm && a.msg && a.sem);
    assert!(ipcs::parse_args(&words(&["--help"])).is_none());
    assert_eq!(
        ipcs::heading("shmid", "bytes"),
        "key        shmid      owner      perms      bytes     "
    );
    let t = "       key      shmid perms size\n         0          5  600  4096 x\n  1 2 3\n 7 8 9 10\n";
    assert_eq!(
        ipcs::rows(t),
        vec![
            "0          5          600        4096       x         ".to_string(),
            "7          8          9          10                   ".to_string(),
        ]
    );
}

#[test]
fn klogd_options_and_messages() {
    let a = klogd::parse_args(&words(&["-n", "-c3"])).unwrap();
    assert!(a.foreground);
    assert_eq!(a.console_level, 3);
    assert_eq!(klogd::parse_args(&words(&["-cx"])).unwrap().console_level, 7);
    assert_eq!(klogd::parse_args(&words(&["-c"])).unwrap().console_level, 7);
    assert_eq!(klogd::parse_args(&words(&[])).unwrap().console_level, -1);
    assert!(klogd::parse_args(&words(&["-h"])).is_none());
    let m = klogd::buffer_messages(b"<4>disk error\nplain\n<x>odd\n<3 unterminated");
    let got: Vec<(i32, String)> = m;
    assert_eq!(
        got,
        vec![
            (4, "disk error".to_string()),
            (6, "plain".to_string()),
            (6, "odd".to_string()),
            (6, "<3 unterminated".to_string()),
        ]
    );
    assert_eq!(klogd::buffer_messages(&[0xff, 0xfe]).len(), 0);
}

#[test]
fn id_queries_and_line() {
    assert!(id::query(&words(&["-u", "-n"])) == IdQuery::User { name: true });
    assert!(id::query(&words(&["-g"])) == IdQuery::Group { name: false });
    assert!(id::query(&words(&["--user"])) == IdQuery::All);
    assert!(id::query(&words(&[])) == IdQuery::All);
    assert_eq!(id::full_line(1000, 100, 1000, 100, "alice", "users"), "uid=1000(alice) gid=100(users)");
    assert_eq!(id::full_line(1000, 100, 0, 0, "alice", ""), "uid=1000(alice) gid=100() euid=0 egid=0");
}

#[test]
fn hdparm_options_and_lines() {
    let a = hdparm::parse_args(&words(&["-g", "--getsz", "/dev/sda", "-x", "/dev/sdb"]));
    assert!(a.geometry && a.size && !a.read_only && !a.reread);
    assert_eq!(a.devices, words(&["/dev/sda", "/dev/sdb"]));
    assert!(hdparm::shows_geometry(&a));
    let b = hdparm::parse_args(&words(&["/dev/sda"]));
    assert!(hdparm::shows_geometry(&b));
    let c = hdparm::parse_args(&words(&["-r", "/dev/sda"]));
    assert!(!hdparm::shows_geometry(&c));
    assert_eq!(hdparm::device_heading("/dev/sda"), "\n/dev/sda:");
    assert_eq!(hdparm::geometry_line(1024, 255, 63, 0), " geometry      = 1024/255/63, start = 0");
    assert_eq!(hdparm::sector_size_line(512), " sector size   = 512 bytes");
    assert_eq!(hdparm::device_size_line(2147483648), " device size   = 2147483648 bytes (2048 MiB)");
    assert_eq!(hdparm::sectors_line(1048576), " 2048");
    assert_eq!(hdparm::read_only_line(1), " readonly      = on");
    assert_eq!(hdparm::read_only_line(0), " readonly      = off");
}

#[test]
fn ln_arguments_and_links() {
    let a = ln::parse_args(&words(&["-s", "-x", "a", "--force", "dir"]));
    assert!(a.symbolic && a.force && !a.verbose);
    assert_eq!(a.paths, words(&["-x", "a", "dir"]));
    let links = ln::plan_links(&words(&["/etc/hosts", "src/b.txt", "/tmp"]), true).ok().unwrap();
    assert_eq!(
        links,
        vec![
            ("/etc/hosts".to_string(), "/tmp/hosts".to_string()),
            ("src/b.txt".to_string(), "/tmp/b.txt".to_string()),
        ]
    );
    let links = ln::plan_links(&words(&["a", "b"]), false).ok().unwrap();
    assert_eq!(links, vec![("a".to_string(), "b".to_string())]);
    assert!(matches!(ln::plan_links(&words(&["a"]), true), Err(LnError::MissingOperand)));
    match ln::plan_links(&words(&["a", "b", "c"]), false) {
        Err(LnError::NotADirectory(t)) => assert_eq!(t, "c"),
        _ => panic!("expected a refusal"),
    }
    assert_eq!(ln::made_line("/tmp/hosts", "/etc/hosts"), "'/tmp/hosts' -> '/etc/hosts'");
}

#[test]
fn logread_and_logname() {
    let a = logread::parse_args(&words(&["-f", "/var/log/syslog"])).unwrap();
    assert!(a.follow);
    assert_eq!(a.file, "/var/log/syslog");
    let a = logread::parse_args(&words(&[])).unwrap();
    assert_eq!(a.file, "/var/log/messages");
    assert!(logread::parse_args(&words(&["--help"])).is_none());
    assert_eq!(logname::login_name(Some("root".to_string()), Some("alice".to_string())), Some("root".to_string()));
    assert_eq!(logname::login_name(None, Some("alice".to_string())), Some("alice".to_string()));
    assert_eq!(logname::login_name(None, None), None);
}

#[test]
fn ifconfig_lines() {
    assert_eq!(ifconfig::new_flags(0x1002, true), 0x1043);
    assert_eq!(ifconfig::new_flags(0x1043, false), 0x1042);
    assert_eq!(ifconfig::parse_mtu("1500"), Some(1500));
    assert_eq!(ifconfig::parse_mtu("big"), None);
    assert_eq!(ifconfig::flags_line("eth0", 0x1043), "eth0: flags=4163<UP,RUNNING,BROADCAST,MULTICAST>");
    assert_eq!(ifconfig::flags_line("lo", 0x49), "lo: flags=73<UP,RUNNING,LOOPBACK>");
    assert_eq!(ifconfig::flags_line("x", 0), "x: flags=0<>");
    assert_eq!(
        ifconfig::inet_line(0xC0A80105, Some(0xFFFFFF00)),
        "        inet 192.168.1.5  netmask 255.255.255.0"
    );
    assert_eq!(ifconfig::inet_line(0x7F000001, None), "        inet 127.0.0.1");
    assert_eq!(ifconfig::mtu_line(65536), "        mtu 65536");
    assert_eq!(ifconfig::ether_line(&[0, 0x1a, 0x2b, 0xc, 0xff, 1]), "        ether 00:1a:2b:0c:ff:01");
}

#[test]
fn ip_tables() {
    let route = "Iface\tDestination\tGateway\tFlags\tRefCnt\tUse\tMetric\tMask\n\
eth0\t00000000\t0101A8C0\t0003\t0\t0\t0\t00000000\n\
eth0\t0001A8C0\t00000000\t0001\t0\t0\t0\t00FFFFFF\n\
short\tline\n";
    assert_eq!(ip::table(route, true), words(&["default via 192.168.1.1 dev eth0", "192.168.1.0/24 dev eth0"]));
    let arp = "IP address       HW type     Flags       HW address            Mask     Device\n\
192.168.1.1      0x1         0x2         aa:bb:cc:dd:ee:ff     *        eth0\n\
192.168.1.9      0x1         0x0         00:00:00:00:00:00     *        eth0\n";
    assert_eq!(
        ip::table(arp, false),
        words(&["192.168.1.1 dev eth0 lladdr aa:bb:cc:dd:ee:ff REACHABLE", "192.168.1.9 dev eth0 lladdr 00:00:00:00:00:00 STALE"])
    );
    assert_eq!(ip::link_line(1, "lo"), "1: lo: <UP,BROADCAST,MULTICAST>");
    assert_eq!(ip::addr_lines(2, "eth0", Some("up\n")), ("2: eth0".to_string(), "    state up".to_string()));
    assert_eq!(ip::addr_lines(2, "eth0", None).1, "    state unknown");
    assert_eq!(ip::parse_hex_ip("0101A8C0"), "192.168.1.1");
    assert_eq!(ip::mask_to_prefix("255.255.255.0"), 24);
}

#[test]
fn kexec_bare_kernel_loads_and_boots() {
    match kexec::plan(&words(&["/boot/vmlinuz"])) {
        KexecPlan::Load { kernel, initrd, cmdline, then_exec } => {
            assert_eq!(kernel, "/boot/vmlinuz");
            assert_eq!(initrd, None);
            assert_eq!(cmdline, "");
            assert!(then_exec);
        }
        _ => panic!("expected a load"),
    }
    match kexec::plan(&words(&["--append=quiet", "bzImage"])) {
        KexecPlan::Load { cmdline, then_exec, .. } => {
            assert_eq!(cmdline, "quiet");
            assert!(then_exec);
        }
        _ => panic!("expected a load"),
    }
}
