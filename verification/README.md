# rustfs_applets

The logic of a set of small Unix applets (fold, free, fsck, ftpd, grep,
gzip/gunzip, hexdump, httpd, hwclock, ifconfig, ip, ipcalc, kill, less, ls,
md5sum, mdev, three init systems and more), written in Verus with
contracts and proved.

- `src/` is the verified library. Each applet has a module under
  `src/applets/`: how it reads its arguments, what it decides and what it
  prints, stated over spec functions. `src/text.rs`, `src/num.rs` and
  `src/paths.rs` hold the shared text, number and path functions.
  Laws that relate several functions stand as public proof functions
  (`lemma_*`), for example the gzip stored-stream round trip, reading back
  an md5sum line, the IPv4 and prefix round trips of ipcalc, the order of
  ls, and the start order of the systemd-compatible init.
- Calls into outside crates (regex, flate2, md-5, libc) and a few std
  functions stand behind small trusted wrappers whose doc comments say what
  is assumed of them.
- `app/` holds the I/O around the library: reading files and directories,
  system calls, sockets and terminals, and the loops of the daemons.
- `tests/` runs the library on concrete values, with the outside crates
  linked.
