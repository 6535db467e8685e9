use rustfs_applets::applets::fold;
use rustfs_applets::applets::freeramdisk;
use rustfs_applets::applets::getopt::{self, GetoptOutcome};
use rustfs_applets::applets::getty;
use rustfs_applets::applets::grep;
use rustfs_applets::applets::gunzip;
use rustfs_applets::applets::gzip;
use rustfs_applets::applets::head;
use rustfs_applets::applets::hostid;
use rustfs_applets::applets::hostname;
use rustfs_applets::applets::httpd;
use rustfs_applets::applets::insmod::{self, InsmodPlan};
use rustfs_applets::applets::install;
use rustfs_applets::applets::ionice;
use rustfs_applets::applets::ipcalc;
use rustfs_applets::applets::kbd_mode;
use rustfs_applets::applets::kill::{self, KillPlan};
use rustfs_applets::applets::killall;
use rustfs_applets::applets::last;
use rustfs_applets::applets::length;
use rustfs_applets::applets::logger;
use rustfs_applets::applets::ls;
use rustfs_applets::applets::md5sum;
use rustfs_applets::applets::mdev;
use rustfs_applets::applets::mkdir;
use rustfs_applets::applets::mkfifo;
use rustfs_applets::applets::mknod::{self, MknodPlan};
use rustfs_applets::num::{fmt_dec, parse_dec_exec};

fn words(ws: &[&str]) -> Vec<String> {
    ws.iter().map(|w| w.to_string()).collect()
}

#[test]
fn gzip_stored_round_trip_through_flate2() {
    let data = b"hello, stored gzip\n".to_vec();
    let z = gzip::gzip_stored(&data);
    assert_eq!(&z[0..3], &[0x1f, 0x8b, 8]);
    let back = gunzip::decompress_bytes(&z).ok().unwrap();
    assert_eq!(back, data);
    let empty = gzip::gzip_stored(&[]);
    assert_eq!(gunzip::decompress_bytes(&empty).ok().unwrap(), Vec::<u8>::new());
    let big: Vec<u8> = (0..70000u32).map(|i| (i % 251) as u8).collect();
    assert_eq!(gunzip::decompress_bytes(&gzip::gzip_stored(&big)).ok().unwrap(), big);
}

#[test]
fn gunzip_refuses_garbage() {
    assert!(gunzip::decompress_bytes(b"not gzip at all").is_err());
}

#[test]
fn crc32_check_value() {
    assert_eq!(gzip::crc32(b"123456789"), 0xCBF43926);
    assert_eq!(gzip::crc32(b""), 0);
}

#[test]
fn gzip_names() {
    assert_eq!(gzip::output_name("a.txt"), "a.txt.gz");
    assert!(gzip::skip_file("a.gz", false));
    assert!(!gzip::skip_file("a.gz", true));
    assert_eq!(gunzip::output_name("a.txt.gz"), "a.txt");
    assert_eq!(gunzip::output_name("a.gz.gz"), "a");
    assert!(gunzip::refuse_file("a.txt", false));
    assert!(!gunzip::refuse_file("a.txt", true));
    let a = gzip::parse_args(&words(&["-k", "-d", "x"])).unwrap();
    assert!(a.keep && a.decompress && !a.force);
    assert_eq!(a.files, words(&["x"]));
}

#[test]
fn md5_known_digests() {
    assert_eq!(md5sum::md5_hex(b""), "d41d8cd98f00b204e9800998ecf8427e");
    assert_eq!(md5sum::md5_hex(b"abc"), "900150983cd24fb0d6963f7d28e17f72");
    assert_eq!(md5sum::sum_line("abc", "f"), "abc  f");
    let v = md5sum::verdict("f", "aa", "aa");
    assert_eq!(v, ("f: OK".to_string(), true));
    let v = md5sum::verdict("f", "aa", "bb");
    assert_eq!(v, ("f: FAILED".to_string(), false));
    let a = md5sum::parse_args(&words(&[]));
    assert!(!a.check);
    assert_eq!(a.files, words(&["-"]));
    let e = md5sum::check_entries("d41d8cd98f00b204e9800998ecf8427e  empty.txt\nbroken\n");
    assert_eq!(e, vec![("d41d8cd98f00b204e9800998ecf8427e".to_string(), "empty.txt".to_string())]);
}

#[test]
fn kill_signals_and_plans() {
    assert_eq!(kill::parse_signal("kill"), 9);
    assert_eq!(kill::parse_signal("SIGTERM"), 15);
    assert_eq!(kill::parse_signal("sigusr1"), 10);
    assert_eq!(kill::parse_signal("9"), 9);
    assert_eq!(kill::parse_signal("iot"), 6);
    assert_eq!(kill::parse_signal("bogus"), 0);
    assert_eq!(kill::signal_by_name("SIGHUP"), 1);
    match kill::plan(&words(&["-9", "123", "456"])) {
        KillPlan::Send { signal, pids } => {
            assert_eq!(signal, 9);
            assert_eq!(pids, vec![123, 456]);
        }
        _ => panic!("expected a send"),
    }
    assert!(matches!(kill::plan(&words(&["-l"])), KillPlan::List));
    assert!(kill::signal_list().contains("HUP"));
}

#[test]
fn killall_helpers() {
    assert_eq!(killall::parse_signal("HUP"), 1);
    assert_eq!(killall::pid_of_dir("1234"), Some(1234));
    assert_eq!(killall::pid_of_dir("self"), None);
    assert!(killall::comm_matches("sshd\n", "sshd"));
    assert!(!killall::comm_matches("sshd\n", "ssh"));
}

#[test]
fn mknod_uses_the_device_numbers() {
    match mknod::plan(&words(&["null", "c", "1", "3"])) {
        MknodPlan::Make { name, mode, dev } => {
            assert_eq!(name, "null");
            assert_eq!(mode, mknod::S_IFCHR | 0o666);
            assert_eq!(dev, 259);
        }
        _ => panic!("expected a node"),
    }
    match mknod::plan(&words(&["big", "b", "4096", "300000"])) {
        MknodPlan::Make { dev, .. } => {
            assert_eq!(dev, ((4096u64 & 0xfff) << 8) | ((4096u64 & 0xfffff000) << 32) | (300000u64 & 0xff) | ((300000u64 & 0xffffff00) << 12));
        }
        _ => panic!("expected a node"),
    }
    assert!(matches!(mknod::plan(&words(&["x"])), MknodPlan::Usage));
    assert!(matches!(mknod::plan(&words(&["x", "z"])), MknodPlan::BadType(_)));
    assert!(matches!(mknod::plan(&words(&["x", "c", "1"])), MknodPlan::MissingNumbers(_)));
}

#[test]
fn grep_through_regex() {
    let o = grep::parse_args(&words(&["-n", "fo+", "a.txt"]));
    assert_eq!(o.patterns, words(&["fo+"]));
    assert_eq!(o.files, words(&["a.txt"]));
    let m = grep::prepare_matcher(&o).ok().unwrap();
    let lines = vec![Some("foo bar".to_string()), Some("baz".to_string()), None, Some("xfoo".to_string())];
    let r = grep::grep_file(&m, &o, "a.txt", false, &lines).unwrap();
    assert_eq!(r.out, words(&["1:foo bar", "4:xfoo"]));
    assert!(r.matched);
    assert!(!r.quit);
}

#[test]
fn grep_fixed_string_is_escaped() {
    let o = grep::parse_args(&words(&["-F", "-c", "a.b"]));
    assert_eq!(grep::build_pattern(&o), Ok("a\\.b".to_string()));
    let m = grep::prepare_matcher(&o).ok().unwrap();
    let lines = vec![Some("a.b".to_string()), Some("axb".to_string())];
    let r = grep::grep_file(&m, &o, "-", false, &lines).unwrap();
    assert_eq!(r.out, words(&["1"]));
}

#[test]
fn grep_only_matching_and_errors() {
    let o = grep::parse_args(&words(&["-o", "[0-9]+"]));
    let m = grep::prepare_matcher(&o).ok().unwrap();
    let lines = vec![Some("a1b22c333".to_string())];
    let r = grep::grep_file(&m, &o, "-", false, &lines).unwrap();
    assert_eq!(r.out, words(&["1", "22", "333"]));
    let bad = grep::parse_args(&words(&["(unclosed"]));
    match grep::prepare_matcher(&bad) {
        Err(e) => assert!(e.starts_with("invalid pattern: ")),
        Ok(_) => panic!("expected an error"),
    }
    let none = grep::parse_args(&words(&[]));
    match grep::prepare_matcher(&none) {
        Err(e) => assert_eq!(e, "missing pattern"),
        Ok(_) => panic!("expected an error"),
    }
    assert!(grep::show_filename(None, 2));
    assert!(!grep::show_filename(None, 1));
    assert!(!grep::show_filename(Some(false), 3));
}

#[test]
fn getopt_outputs() {
    match getopt::run(&words(&["-o", "ab:", "--", "-a", "-bx", "file", "-b", "y"])) {
        GetoptOutcome::Parsed(l) => assert_eq!(l, "-a -b 'x' -b 'y' -- 'file'"),
        _ => panic!("expected a parse"),
    }
    match getopt::run(&words(&["-o", "a", "-l", "verbose,file:", "--", "--file=x", "--verbose", "rest"])) {
        GetoptOutcome::Parsed(l) => assert_eq!(l, "--file 'x' --verbose -- 'rest'"),
        _ => panic!("expected a parse"),
    }
    match getopt::run(&words(&["-o", "a", "--", "-z"])) {
        GetoptOutcome::Failed(m) => assert_eq!(m, "getopt: invalid option -- 'z'"),
        _ => panic!("expected a failure"),
    }
    assert!(matches!(getopt::run(&words(&[])), GetoptOutcome::Usage));
    assert!(matches!(getopt::run(&words(&["-h"])), GetoptOutcome::Help));
}

#[test]
fn ipcalc_report_and_round_trip() {
    assert_eq!(ipcalc::parse_ipv4("192.168.1.10"), Some(0xC0A8010A));
    assert_eq!(ipcalc::parse_ipv4("1.2.3"), None);
    assert_eq!(ipcalc::format_ipv4(0xC0A8010A), "192.168.1.10");
    for ip in [0u32, 1, 0x7F000001, 0xFFFFFFFF, 0x0A000102] {
        assert_eq!(ipcalc::parse_ipv4(&ipcalc::format_ipv4(ip)), Some(ip));
    }
    assert_eq!(ipcalc::prefix_to_mask(24), 0xFFFFFF00);
    assert_eq!(ipcalc::netmask_to_prefix("255.255.240.0"), 20);
    let r = ipcalc::report("192.168.1.10", 24, false, false, false).ok().unwrap();
    assert_eq!(
        r,
        words(&[
            "NETWORK=192.168.1.0",
            "NETMASK=255.255.255.0",
            "BROADCAST=192.168.1.255",
            "PREFIX=24",
            "HOSTS=254",
            "MINADDR=192.168.1.1",
            "MAXADDR=192.168.1.254",
        ])
    );
    let r = ipcalc::report("10.0.0.7", 31, true, false, false).ok().unwrap();
    assert_eq!(r, words(&["BROADCAST=10.0.0.7"]));
    assert_eq!(ipcalc::report("nope", 24, false, false, false), Err("nope".to_string()));
}

#[test]
fn httpd_pieces() {
    assert_eq!(httpd::guess_mime("index.html"), "text/html");
    assert!(httpd::is_header_end("\r"));
    assert!(!httpd::is_header_end("Host: x"));
    assert_eq!(httpd::forbidden_reply(), "HTTP/1.0 403 Forbidden\r\n\r\n");
}

#[test]
fn install_plans() {
    assert_eq!(install::parse_mode("644"), 0o644);
    assert_eq!(install::parse_mode("9"), 0o755);
    let a = install::parse_args(&words(&["-m", "600", "-o", "root", "a", "b"])).unwrap();
    assert_eq!(a.mode, 0o600);
    assert_eq!(a.owner.as_deref(), Some("root"));
    assert_eq!(a.sources, words(&["a", "b"]));
    let c = install::plan_copies(&words(&["bin/tool", "/usr/bin"]), true).ok().unwrap();
    assert_eq!(c, vec![("bin/tool".to_string(), "/usr/bin/tool".to_string())]);
    assert!(matches!(install::plan_copies(&words(&["a"]), true), Err(None)));
    assert!(matches!(install::plan_copies(&words(&["a", "b", "c"]), false), Err(Some(_))));
    let t = "root:x:0:0::/root:/bin/sh\nwww:x:33:33::/var/www:/bin/false\n";
    assert_eq!(install::resolve_id("www", Some(t)), Some(33));
    assert_eq!(install::resolve_id("42", None), Some(42));
    assert_eq!(install::resolve_id("ghost", Some(t)), None);
}

#[test]
fn small_formatters() {
    assert_eq!(hostid::hostid_text(0x7f0101), "007f0101");
    assert_eq!(length::run(&words(&["héllo"])), "6");
    assert_eq!(length::run(&words(&[])), "0");
    assert_eq!(head::header("a.txt"), "==> a.txt <==");
    assert_eq!(logger::parse_priority("local0.err"), 131);
    assert_eq!(logger::parse_priority("daemon.info"), 30);
    assert_eq!(logger::ident(&None), "logger");
    assert_eq!(logger::message_text(&words(&["a", "b"]), "ignored"), "a b");
    assert_eq!(logger::message_text(&words(&[]), "  from stdin \n"), "from stdin");
    assert_eq!(mkdir::created_message("d"), "mkdir: created directory 'd'");
    assert!(mkdir::failure_ignored(true, true));
    assert!(!mkdir::failure_ignored(false, true));
    assert_eq!(ionice::ioprio(Some(1), 4), (1 << 13) | 4);
    assert_eq!(ionice::ioprio(None, 7), (2 << 13) | 7);
    assert_eq!(kbd_mode::mode_report(3), "The keyboard is in Unicode (UTF-8) mode");
    assert_eq!(getty::login_user("  alice \n"), "alice");
    assert_eq!(getty::host_name(b"box\0\0\0", true), "box");
    assert_eq!(getty::host_name(b"box", false), "localhost");
    assert_eq!(hostname::name_from_file("  myhost \n"), Some("myhost".to_string()));
    assert_eq!(hostname::name_from_file(" \n"), None);
    assert_eq!(freeramdisk::device(&words(&["-v", "/dev/ram0"])), Some("/dev/ram0".to_string()));
    assert_eq!(freeramdisk::device(&words(&["-v"])), None);
}

#[test]
fn fold_lines() {
    assert_eq!(fold::fold_line("abcdefgh", 3, false), words(&["abc", "def", "gh"]));
    assert_eq!(fold::fold_line("", 3, false), words(&[""]));
    let a = fold::parse_args(&words(&["-w", "10", "f"]));
    assert_eq!(a.width, 10);
}

#[test]
fn insmod_and_mkfifo() {
    match insmod::plan(&words(&["m.ko", "a=1", "b=2"])) {
        InsmodPlan::Load { path, params } => {
            assert_eq!(path, "m.ko");
            assert_eq!(params, "a=1 b=2");
        }
        _ => panic!("expected a load"),
    }
    assert!(matches!(insmod::plan(&words(&[])), InsmodPlan::Usage));
    assert!(matches!(insmod::plan(&words(&["-h"])), InsmodPlan::Help));
    let (mode, names) = mkfifo::parse_args(&words(&["-m", "600", "p1"]));
    assert_eq!(mode, 0o600);
    assert_eq!(names, words(&["p1"]));
}

#[test]
fn last_fields() {
    assert_eq!(last::extract_string(b"root\0\0\0"), "root");
    assert_eq!(last::extract_string(&[0xff, 0]), "");
    assert_eq!(last::footer("/var/log/wtmp", 0), "wtmp begins (empty)");
}

#[test]
fn ls_permissions_and_sizes() {
    assert_eq!(ls::format_permissions_unix(0o755), "rwxr-xr-x");
    assert_eq!(ls::format_permissions_unix(0o640), "rw-r-----");
}

#[test]
fn mdev_globs() {
    assert!(mdev::glob_match("tty*", "tty0"));
    assert!(mdev::glob_match("sd?", "sda"));
    assert!(mdev::glob_match("sd[ab]", "sdb"));
    assert!(!mdev::glob_match("sd[!ab]", "sda"));
    assert!(!mdev::glob_match("sd?", "sda1"));
}

#[test]
fn md5_sum_line_reads_back() {
    for (data, file) in [(&b""[..], "empty.txt"), (&b"abc"[..], "dir/a b.txt"), (&b"xyz\n"[..], "  spaced")] {
        let sum = md5sum::md5_hex(data);
        let mut line = md5sum::sum_line(&sum, file);
        line.push('\n');
        assert_eq!(md5sum::check_entries(&line), vec![(sum.clone(), file.to_string())]);
    }
}

#[test]
fn decimal_round_trip() {
    for n in [0u64, 7, 10, 4096, 1234567890, u64::MAX] {
        let s = fmt_dec(n);
        assert_eq!(parse_dec_exec(&s, u64::MAX), Some(n));
        assert_eq!(parse_dec_exec(&s, n), Some(n));
    }
    assert_eq!(fmt_dec(4096).iter().collect::<String>(), "4096");
    assert_eq!(parse_dec_exec(&['1', '0'], 9), None);
}

fn entry(name: &str, is_dir: bool, size: u64, modified: i128) -> ls::LsEntry {
    ls::LsEntry {
        name: name.to_string(),
        name_bytes: name.as_bytes().to_vec(),
        is_dir,
        size: Some(size),
        modified: Some(modified),
        long_line: None,
    }
}

fn one_per_line(reverse: bool, by_time: bool, by_size: bool) -> ls::LsFlags {
    ls::LsFlags {
        all: false,
        almost_all: false,
        long_format: false,
        human_readable: false,
        one_per_line: true,
        reverse,
        by_time,
        by_size,
        recursive: false,
    }
}

#[test]
fn ls_orders_entries() {
    let es = || vec![entry("b", false, 5, 30), entry("a", true, 100, 10), entry("c", false, 1, 20), entry(".h", false, 0, 0)];
    let l = ls::list_entries(".", one_per_line(false, false, false), es()).unwrap();
    assert_eq!(l.lines, words(&["a", "b", "c"]));
    let l = ls::list_entries(".", one_per_line(true, false, false), es()).unwrap();
    assert_eq!(l.lines, words(&["c", "b", "a"]));
    let l = ls::list_entries(".", one_per_line(false, true, false), es()).unwrap();
    assert_eq!(l.lines, words(&["b", "c", "a"]));
    let l = ls::list_entries(".", one_per_line(false, false, true), es()).unwrap();
    assert_eq!(l.lines, words(&["a", "b", "c"]));
}

#[test]
fn ipcalc_prefix_round_trip() {
    for p in 0u32..=32 {
        assert_eq!(ipcalc::netmask_to_prefix(&ipcalc::format_ipv4(ipcalc::prefix_to_mask(p))), p);
    }
}

#[test]
fn ipcalc_address_within_network() {
    let r = ipcalc::report("10.1.2.3", 30, false, false, false).ok().unwrap();
    assert_eq!(
        r,
        words(&[
            "NETWORK=10.1.2.0",
            "NETMASK=255.255.255.252",
            "BROADCAST=10.1.2.3",
            "PREFIX=30",
            "HOSTS=2",
            "MINADDR=10.1.2.1",
            "MAXADDR=10.1.2.2",
        ])
    );
}

#[test]
fn gzip_names_read_back() {
    for n in ["a.txt", "x", "dir/a.tar", "", "a.gzz"] {
        let z = gzip::output_name(n);
        assert!(!gunzip::refuse_file(&z, false));
        assert_eq!(gunzip::output_name(&z), n);
    }
}

#[test]
fn kill_listed_names_read_back() {
    let list = kill::signal_list();
    let toks: Vec<&str> = list.split_whitespace().collect();
    assert_eq!(toks.len(), 62);
    for pair in toks.chunks(2) {
        let num: i32 = pair[0].trim_end_matches(')').parse().unwrap();
        let name = pair[1];
        assert_eq!(kill::signal_by_name(name), num);
        assert_eq!(kill::signal_by_name(&name[3..]), num);
        assert_eq!(kill::parse_signal(&name.to_lowercase()), num);
    }
}

#[test]
fn mdev_plain_patterns_match_themselves() {
    for (p, t) in [("null", "null"), ("tty0", "tty0"), ("sda", "sda1"), ("sda1", "sda"), ("", ""), ("", "x")] {
        assert_eq!(mdev::glob_match(p, t), p == t);
    }
    for t in ["", "sda", "ttyS0"] {
        assert!(mdev::glob_match("*", t));
    }
}

#[test]
fn fold_pieces_rejoin() {
    for (line, w) in [("abcdefghij", 3usize), ("héllo wörld, folded", 4), ("xy", 1)] {
        let pieces = fold::fold_line(line, w, false);
        assert_eq!(pieces.concat(), line);
        for p in &pieces {
            let n = p.chars().count();
            assert!(n > 0 && n <= w);
        }
    }
}

#[test]
fn mdev_node_plan_numbers() {
    let p = mdev::node_plan("sda", "8:0", true, &[]).unwrap();
    assert_eq!(p.path, "/dev/sda");
    assert_eq!((p.major, p.minor, p.dev), (8, 0, 2048));
    assert_eq!(p.mode, 0o660);
    assert!(p.create && p.block);
    let q = mdev::node_plan("nvme0n1", "259:65536", true, &[]).unwrap();
    assert_eq!(q.dev, 268501760);
    assert!(mdev::node_plan("x", "8", false, &[]).is_none());
    assert!(mdev::node_plan("x", "a:1", false, &[]).is_none());
}

#[test]
fn mdev_rule_actions_place_the_node() {
    let rules = mdev::load_rules("sd[a-z] 0:6 0640 > disk/main\ncdrom 0:0 0660 = cd\n");
    let moved = mdev::node_plan("sda", "8:0", true, &rules).unwrap();
    assert_eq!(moved.path, "/dev/disk/main");
    assert!(matches!(moved.after, mdev::AfterCreate::Nothing));
    assert_eq!((moved.mode, moved.gid), (0o640, 6));
    let linked = mdev::node_plan("cdrom", "11:0", true, &rules).unwrap();
    assert_eq!(linked.path, "/dev/cdrom");
    match linked.after {
        mdev::AfterCreate::Link(l) => assert_eq!(l, "/dev/cd"),
        _ => panic!("expected a link"),
    }
}

#[test]
fn mdev_uevent_messages() {
    let rules = mdev::load_rules("sd[a-z] 0:6 0640\n");
    let msg = "add@/block/sda\0ACTION=add\0DEVNAME=sda\0MAJOR=8\0MINOR=0\0SUBSYSTEM=block\0";
    match mdev::uevent_plan(msg, "", &rules) {
        Some(mdev::HotplugPlan::Add(Some(p))) => {
            assert_eq!(p.path, "/dev/sda");
            assert!(p.block);
            assert_eq!(p.mode, 0o640);
        }
        _ => panic!("expected a node to add"),
    }
    let gone = "remove@/block/sdb\0ACTION=remove\0DEVNAME=sdb\0";
    match mdev::uevent_plan(gone, "", &rules) {
        Some(mdev::HotplugPlan::Remove(path, cmd)) => {
            assert_eq!(path, "/dev/sdb");
            assert_eq!(cmd, None);
        }
        _ => panic!("expected a removal"),
    }
    assert!(mdev::uevent_plan("change@/x\0ACTION=change\0", "", &rules).is_none());
    assert!(matches!(
        mdev::uevent_plan("ACTION=change\0DEVNAME=tty1\0", "", &rules),
        Some(mdev::HotplugPlan::Ignore)
    ));
}

#[test]
fn kill_signal_name_forms() {
    for s in ["hup", "Term", "usr1", "bogus", "x-1", "io"] {
        let n = kill::parse_signal(s);
        assert!((0..=31).contains(&n));
        assert_eq!(kill::parse_signal(&format!("SIG{s}")), n);
        assert_eq!(kill::parse_signal(&s.to_lowercase()), n);
    }
}

#[test]
fn httpd_access_decisions() {
    assert!(httpd::access("/srv/www", None) == httpd::Access::NotFound);
    assert!(httpd::access("/srv/www", Some("/srv/www/a/b.html")) == httpd::Access::Allowed);
    assert!(httpd::access("/srv/www", Some("/srv/www")) == httpd::Access::Allowed);
    assert!(httpd::access("/srv/www", Some("/srv/wwwx/a")) == httpd::Access::Forbidden);
    assert!(httpd::access("/srv/www", Some("/etc/passwd")) == httpd::Access::Forbidden);
}

#[test]
fn mdev_removal_follows_a_moved_node() {
    let rules = mdev::load_rules("sd[a-z] 0:6 0640 > disk/main\n");
    match mdev::hotplug_plan("remove", "sda", "", "", "", "block", &rules) {
        mdev::HotplugPlan::Remove(path, cmd) => {
            assert_eq!(path, "/dev/disk/main");
            assert_eq!(cmd, None);
        }
        _ => panic!("expected a removal"),
    }
}
