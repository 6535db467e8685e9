//! The applets, one module each, holding what each one decides and computes.
pub mod fold;
pub mod free;
pub mod freeramdisk;
pub mod fsck;
pub mod fsync;
pub mod ftpd;
pub mod ftpput;
pub mod fuser;
pub mod getopt;
pub mod getty;
pub mod grep;
pub mod gunzip;
pub mod gzip;
pub mod hd;
pub mod hdparm;
pub mod head;
pub mod hexdump;
pub mod hostid;
pub mod hostname;
pub mod httpd;
pub mod hwclock;
pub mod id;
pub mod ifconfig;
pub mod ifup;
pub mod init;
pub mod insmod;
pub mod install;
pub mod ionice;
pub mod ip;
pub mod ipaddr;
pub mod ipcalc;
pub mod ipcrm;
pub mod ipcs;
pub mod kbd_mode;
pub mod kexec;
pub mod kill;
pub mod killall5;
pub mod killall;
pub mod klogd;
pub mod last;
pub mod length;
pub mod less;
pub mod ln;
pub mod logger;
pub mod login;
pub mod logname;
pub mod logread;
pub mod losetup;
pub mod ls;
pub mod lsattr;
pub mod lsmod;
pub mod md5sum;
pub mod mdev;
pub mod mesg;
pub mod mkdir;
pub mod mkfifo;
pub mod mknod;
