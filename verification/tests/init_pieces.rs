use rustfs_applets::applets::init::{essential_mounts, mounted_at, mounts_needed, needs_mount, owner, parse_command, restarted, track, Watched};
use rustfs_applets::applets::init::rustfs_init;
use rustfs_applets::applets::init::systemd_compat::{self, RestartPolicy, ServiceType, ServiceUnit};
use rustfs_applets::applets::init::sysvinit;

fn words(ws: &[&str]) -> Vec<String> {
    ws.iter().map(|w| w.to_string()).collect()
}

fn unit(name: &str, text: &str) -> ServiceUnit {
    systemd_compat::parse_service(name, text).unwrap()
}

#[test]
fn command_words_with_quotes() {
    assert_eq!(parse_command("/bin/echo 'a b' \"c d\" e\\ f"), words(&["/bin/echo", "a b", "c d", "e f"]));
    assert_eq!(parse_command("  ls   -l  "), words(&["ls", "-l"]));
    assert_eq!(parse_command(""), Vec::<String>::new());
}

#[test]
fn service_file_settings() {
    let u = unit(
        "web.service",
        "[Unit]\nDescription=Web\nAfter=net.service db.service\n# note\n[Service]\nType=forking\nExecStart=/usr/bin/web --port 80\nRestart=on-failure\nRestartSec=5\nEnvironment=\"MODE=prod\"\n[Install]\nWantedBy=multi-user.target\n",
    );
    assert_eq!(u.name, "web.service");
    assert_eq!(u.description, "Web");
    assert_eq!(u.after, words(&["net.service", "db.service"]));
    assert!(u.service_type == ServiceType::Forking);
    assert_eq!(u.exec_start, "/usr/bin/web --port 80");
    assert!(u.restart == RestartPolicy::OnFailure);
    assert_eq!(u.restart_sec, 5);
    assert_eq!(u.environment, vec![("MODE".to_string(), "prod".to_string())]);
    assert_eq!(u.wanted_by, words(&["multi-user.target"]));
    assert!(systemd_compat::parse_service("x.service", "[Unit]\nDescription=no start\n").is_none());
}

#[test]
fn target_order_places_dependencies_first_and_once() {
    let mut units: Vec<ServiceUnit> = Vec::new();
    systemd_compat::add_unit(
        &mut units,
        unit("web.service", "[Unit]\nAfter=db.service\nRequires=net.service\n[Service]\nExecStart=/w\n[Install]\nWantedBy=multi-user.target\n"),
    );
    systemd_compat::add_unit(
        &mut units,
        unit("db.service", "[Unit]\nRequires=net.service\n[Service]\nExecStart=/d\n[Install]\nWantedBy=multi-user.target\n"),
    );
    systemd_compat::add_unit(&mut units, unit("net.service", "[Service]\nExecStart=/n\n"));
    systemd_compat::add_unit(
        &mut units,
        unit("a.service", "[Unit]\nAfter=b.service\n[Service]\nExecStart=/a\n[Install]\nWantedBy=multi-user.target\n"),
    );
    systemd_compat::add_unit(
        &mut units,
        unit("b.service", "[Unit]\nAfter=a.service\n[Service]\nExecStart=/b\n"),
    );
    systemd_compat::add_unit(&mut units, unit("net.service", "[Service]\nExecStart=/other\n"));
    assert_eq!(units.len(), 5);
    let order = systemd_compat::resolve_target(&units, "multi-user.target");
    assert_eq!(order, words(&["net.service", "db.service", "web.service", "b.service", "a.service"]));
    let mut seen = order.clone();
    seen.sort();
    seen.dedup();
    assert_eq!(seen.len(), order.len());
    assert!(systemd_compat::resolve_target(&units, "rescue.target").is_empty());
}

#[test]
fn restart_decisions() {
    assert_eq!(systemd_compat::restart_plan(RestartPolicy::No, false, 0, 1), None);
    assert_eq!(systemd_compat::restart_plan(RestartPolicy::OnFailure, true, 0, 1), None);
    assert!(systemd_compat::restart_plan(RestartPolicy::Always, true, 0, 1).is_some());
}

#[test]
fn inittab_lines() {
    let (es, problems) = rustfs_init::parse_inittab("# boot\nrc::sysinit:/etc/init.d/rcS\ntty1:respawn:/sbin/getty tty1\nbad line\nx:bogus:/bin/x\n");
    let es = es.ok().unwrap();
    assert_eq!(es.len(), 2);
    assert_eq!(es[0].id, "rc");
    assert!(es[0].action == rustfs_init::Action::Sysinit);
    assert_eq!(es[0].process, "/etc/init.d/rcS");
    assert_eq!(es[1].process, "/sbin/getty tty1");
    assert_eq!(problems.len(), 2);
    let d = rustfs_init::default_inittab();
    assert_eq!(d[0].id, "rc");
    let (es, _) = sysvinit::parse_inittab("id:3:initdefault:\nl3:3:wait:/etc/rc 3\n");
    let es = es.ok().unwrap();
    assert_eq!(es.len(), 2);
    assert_eq!(sysvinit::get_default_runlevel(&es, &[]), 3);
    assert_eq!(sysvinit::get_default_runlevel(&es, &words(&["5"])), 5);
}

#[test]
fn mount_table_reading() {
    let m = "proc /proc proc rw 0 0\nsysfs /sys sysfs rw 0 0\n/dev/sda1 / ext4 rw 0 0\n";
    assert!(mounted_at(m, "/proc"));
    assert!(mounted_at(m, "/"));
    assert!(!mounted_at(m, "/run"));
    assert!(!mounted_at(m, "proc"));
    assert!(!mounted_at("", "/proc"));
}

#[test]
fn essential_mount_list() {
    let plain = essential_mounts(false);
    let targets: Vec<&str> = plain.iter().map(|m| m.target.as_str()).collect();
    assert_eq!(targets, vec!["/proc", "/sys", "/dev", "/run", "/dev/pts", "/dev/shm"]);
    assert!(plain[3].nosuid_nodev && plain[3].options == "mode=0755");
    assert!(!plain[0].nosuid_nodev && plain[0].options.is_empty());
    let with = essential_mounts(true);
    assert_eq!(with.len(), 7);
    assert_eq!(with[6].fstype, "cgroup2");
}

#[test]
fn wait_status_decoding() {
    assert!(systemd_compat::exited_ok(0));
    assert!(!systemd_compat::exited_ok(1 << 8));
    assert!(!systemd_compat::exited_ok(9));
    assert!(!systemd_compat::exited_ok(0x7f));
}

#[test]
fn before_puts_a_unit_first() {
    let mut units: Vec<ServiceUnit> = Vec::new();
    systemd_compat::add_unit(
        &mut units,
        unit("a.service", "[Service]\nExecStart=/a\n[Install]\nWantedBy=multi-user.target\n"),
    );
    systemd_compat::add_unit(
        &mut units,
        unit("b.service", "[Unit]\nBefore=a.service\n[Service]\nExecStart=/b\n[Install]\nWantedBy=multi-user.target\n"),
    );
    systemd_compat::add_unit(
        &mut units,
        unit("c.service", "[Unit]\nBefore=a.service b.service\n[Service]\nExecStart=/c\n"),
    );
    let order = systemd_compat::resolve_target(&units, "multi-user.target");
    assert_eq!(order, words(&["b.service", "a.service"]));
}

#[test]
fn before_pulls_nothing_in() {
    let mut units: Vec<ServiceUnit> = Vec::new();
    systemd_compat::add_unit(
        &mut units,
        unit("a.service", "[Service]\nExecStart=/a\n[Install]\nWantedBy=t\n"),
    );
    systemd_compat::add_unit(&mut units, unit("b.service", "[Unit]\nBefore=a.service\n[Service]\nExecStart=/b\n"));
    assert_eq!(systemd_compat::resolve_target(&units, "t"), words(&["a.service"]));
    systemd_compat::add_unit(
        &mut units,
        unit("c.service", "[Unit]\nWants=b.service\n[Service]\nExecStart=/c\n[Install]\nWantedBy=t\n"),
    );
    assert_eq!(systemd_compat::resolve_target(&units, "t"), words(&["b.service", "a.service", "c.service"]));
}

#[test]
fn respawn_records_by_id() {
    let mut t: Vec<Watched> = Vec::new();
    track(&mut t, "tty1", 0, Some(100), 0);
    track(&mut t, "tty2", 1, Some(101), 0);
    track(&mut t, "tty1", 2, Some(102), 0);
    assert_eq!(t.len(), 2);
    assert_eq!((t[0].entry, t[0].pid), (2, Some(102)));
    assert_eq!(owner(&t, 100), None);
    assert_eq!(owner(&t, 101), Some(1));
    assert_eq!(sysvinit::child_exited(&mut t, 999), None);
    assert_eq!(sysvinit::child_exited(&mut t, 101), Some((1, 1, 0)));
    assert_eq!(t[1].count, 1);
    for _ in 0..9 {
        let _ = sysvinit::child_exited(&mut t, 101);
    }
    assert_eq!(t[1].count, 10);
    assert_eq!(sysvinit::child_exited(&mut t, 101), Some((1, 1, 5)));
    assert_eq!(t[1].count, 0);
    restarted(&mut t, 1, Some(200), 7);
    assert_eq!((t[1].pid, t[1].started), (Some(200), 7));
    let second = 1_000_000_000u64;
    let mut r: Vec<Watched> = Vec::new();
    track(&mut r, "c", 3, Some(50), 0);
    assert_eq!(rustfs_init::child_exited(&mut r, 50, 2 * second), Some((0, 3, 0)));
    assert_eq!(r[0].count, 1);
    assert_eq!(rustfs_init::child_exited(&mut r, 50, 9 * second), Some((0, 3, 0)));
    assert_eq!(r[0].count, 0);
}

#[test]
fn service_exit_steps() {
    assert_eq!(systemd_compat::exit_step(RestartPolicy::OnFailure, 0, 0, 3), None);
    assert_eq!(systemd_compat::exit_step(RestartPolicy::OnFailure, 1 << 8, 0, 3), Some((1, 0, 3)));
    assert_eq!(systemd_compat::exit_step(RestartPolicy::Always, 0, 10, 3), Some((0, 10, 3)));
    assert_eq!(systemd_compat::exit_step(RestartPolicy::No, 9, 0, 3), None);
}

#[test]
fn mounts_still_needed() {
    let table = "proc /proc proc rw 0 0\nsysfs /sys sysfs rw 0 0\n";
    assert!(!needs_mount(Some(table), "/proc"));
    assert!(needs_mount(Some(table), "/run"));
    assert!(needs_mount(None, "/proc"));
    let left: Vec<String> = mounts_needed(false, table).iter().map(|m| m.target.clone()).collect();
    assert_eq!(left, words(&["/dev", "/run", "/dev/pts", "/dev/shm"]));
    let all = "a /proc b\na /sys b\na /dev b\na /run b\na /dev/pts b\na /dev/shm b\n";
    assert!(mounts_needed(false, all).is_empty());
}
