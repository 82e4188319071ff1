//! The sensors of the performance tab and the texts shown for them.
use vstd::prelude::*;
use vstd::string::StringExecFns;
use crate::number::{decimal, push_decimal};
use vstd::arithmetic::div_mod::lemma_fundamental_div_mod_converse;
use crate::units::{
    f64_value, f64_value_of, one_decimal, push_one_decimal, push_two_decimals, round_ratio,
    rounded_units, two_decimals,
};

verus! {

/// A sensor of the performance tab; there is one `Disk` sensor per volume.
#[derive(Clone, Copy, PartialEq, Eq, Debug, Structural)]
pub enum Sensor {
    Cpu,
    Memory,
    Disk(usize),
    Network,
    Nvidia,
}

/// The sensors for `disk_count` volumes: processor, memory, one per volume
/// (numbered from 0), network, GPU.
pub open spec fn sensor_list(disk_count: nat) -> Seq<Sensor> {
    seq![Sensor::Cpu, Sensor::Memory] + Seq::new(disk_count, |i: int| Sensor::Disk(i as usize))
        + seq![Sensor::Network, Sensor::Nvidia]
}

/// The sensor list holds processor and memory first, then one disk sensor per
/// volume, numbered in order from 0, then network and GPU: `disk_count + 4`
/// sensors in all, and every volume has its sensor.
pub proof fn lemma_sensor_list_per_volume(disk_count: nat)
    ensures
        sensor_list(disk_count).len() == disk_count + 4,
        sensor_list(disk_count)[0] == Sensor::Cpu,
        sensor_list(disk_count)[1] == Sensor::Memory,
        forall|i: int| 0 <= i < disk_count ==> #[trigger] sensor_list(disk_count)[2 + i] == Sensor::Disk(i as usize),
        forall|i: int| 0 <= i < disk_count ==> #[trigger] sensor_list(disk_count).contains(Sensor::Disk(i as usize)),
        sensor_list(disk_count)[disk_count + 2int] == Sensor::Network,
        sensor_list(disk_count)[disk_count + 3int] == Sensor::Nvidia,
{
    let l = sensor_list(disk_count);
    assert forall|i: int| 0 <= i < disk_count implies #[trigger] l.contains(Sensor::Disk(i as usize)) by {
        assert(l[2 + i] == Sensor::Disk(i as usize));
    }
}

/// A colour given by its red, green and blue components.
#[derive(Clone, Copy, PartialEq, Eq, Debug, Structural)]
pub struct Rgb {
    pub r: u8,
    pub g: u8,
    pub b: u8,
}

/// The colour in which each kind of sensor is drawn.
pub open spec fn sensor_rgb(s: Sensor) -> Rgb {
    match s {
        Sensor::Cpu => Rgb { r: 80, g: 180, b: 255 },
        Sensor::Memory => Rgb { r: 220, g: 100, b: 220 },
        Sensor::Disk(_) => Rgb { r: 120, g: 220, b: 120 },
        Sensor::Network => Rgb { r: 80, g: 200, b: 255 },
        Sensor::Nvidia => Rgb { r: 160, g: 180, b: 210 },
    }
}

/// The icon of each kind of sensor.
pub open spec fn sensor_icon_text(s: Sensor) -> Seq<char> {
    match s {
        Sensor::Cpu => "🔲"@,
        Sensor::Memory => "▦"@,
        Sensor::Disk(_) => "◉"@,
        Sensor::Network => "⇄"@,
        Sensor::Nvidia => "▣"@,
    }
}

/// The title of a sensor: for a volume its mount point where the volume is
/// still there, else `Диск <number>`.
pub open spec fn sensor_title_text(s: Sensor, mounts: Seq<Seq<char>>) -> Seq<char> {
    match s {
        Sensor::Cpu => "ЦП"@,
        Sensor::Memory => "Память"@,
        Sensor::Disk(i) => if i < mounts.len() {
            mounts[i as int]
        } else {
            "Диск "@ + decimal(i as nat)
        },
        Sensor::Network => "Сеть"@,
        Sensor::Nvidia => "NVIDIA"@,
    }
}

impl Sensor {
    /// The sensors for `disk_count` volumes.
    pub fn build_list(disk_count: usize) -> (v: Vec<Sensor>)
        ensures
            v@ == sensor_list(disk_count as nat),
    {
        let mut v = vec![Sensor::Cpu, Sensor::Memory];
        for i in 0..disk_count
            invariant
                v@ == seq![Sensor::Cpu, Sensor::Memory] + Seq::new(
                    i as nat,
                    |k: int| Sensor::Disk(k as usize),
                ),
        {
            v.push(Sensor::Disk(i));
            assert(v@ =~= seq![Sensor::Cpu, Sensor::Memory] + Seq::new(
                (i + 1) as nat,
                |k: int| Sensor::Disk(k as usize),
            ));
        }
        v.push(Sensor::Network);
        v.push(Sensor::Nvidia);
        assert(v@ =~= sensor_list(disk_count as nat));
        v
    }

    /// The colour of this sensor.
    pub fn color(&self) -> (c: Rgb)
        ensures
            c == sensor_rgb(*self),
    {
        match self {
            Sensor::Cpu => Rgb { r: 80, g: 180, b: 255 },
            Sensor::Memory => Rgb { r: 220, g: 100, b: 220 },
            Sensor::Disk(_) => Rgb { r: 120, g: 220, b: 120 },
            Sensor::Network => Rgb { r: 80, g: 200, b: 255 },
            Sensor::Nvidia => Rgb { r: 160, g: 180, b: 210 },
        }
    }
}

/// The icon of a sensor.
pub fn sensor_icon(s: &Sensor) -> (res: &'static str)
    ensures
        res@ == sensor_icon_text(*s),
{
    match s {
        Sensor::Cpu => "🔲",
        Sensor::Memory => "▦",
        Sensor::Disk(_) => "◉",
        Sensor::Network => "⇄",
        Sensor::Nvidia => "▣",
    }
}

/// The title of a sensor, given the mount points of the volumes in sensor order.
pub fn sensor_title(s: &Sensor, mounts: &Vec<String>) -> (res: String)
    ensures
        res@ == sensor_title_text(*s, mounts@.map_values(|m: String| m@)),
{
    match s {
        Sensor::Cpu => String::from_str("ЦП"),
        Sensor::Memory => String::from_str("Память"),
        Sensor::Disk(i) => {
            if *i < mounts.len() {
                mounts[*i].clone()
            } else {
                let mut t = String::from_str("Диск ");
                push_decimal(&mut t, *i as u64);
                t
            }
        },
        Sensor::Network => String::from_str("Сеть"),
        Sensor::Nvidia => String::from_str("NVIDIA"),
    }
}

/// The kind of storage device behind a volume.
#[derive(Clone, Copy, PartialEq, Eq, Debug, Structural)]
pub enum DiskKind {
    Hdd,
    Ssd,
    Unknown,
}

/// The name shown for a kind of storage device.
pub open spec fn disk_kind_text(k: DiskKind) -> Seq<char> {
    match k {
        DiskKind::Hdd => "HDD"@,
        DiskKind::Ssd => "SSD"@,
        DiskKind::Unknown => "—"@,
    }
}

/// The throughput, in bytes per second, at which a device of a kind counts as fully busy:
/// 150 MiB/s for a hard disk, 500 MiB/s for a solid-state disk, 200 MiB/s otherwise.
pub open spec fn disk_kind_max_bps(k: DiskKind) -> u64 {
    match k {
        DiskKind::Hdd => 157286400,
        DiskKind::Ssd => 524288000,
        DiskKind::Unknown => 209715200,
    }
}

/// The name of a kind of storage device.
pub fn disk_kind_label(k: DiskKind) -> (res: &'static str)
    ensures
        res@ == disk_kind_text(k),
{
    match k {
        DiskKind::Hdd => "HDD",
        DiskKind::Ssd => "SSD",
        DiskKind::Unknown => "—",
    }
}

/// The throughput at which a device of kind `k` counts as fully busy.
pub fn disk_kind_max_throughput(k: DiskKind) -> (bps: u64)
    ensures
        bps == disk_kind_max_bps(k),
{
    match k {
        DiskKind::Hdd => 157286400,
        DiskKind::Ssd => 524288000,
        DiskKind::Unknown => 209715200,
    }
}

/// Whether a mount point is that of the system volume: it starts with `C:`.
pub open spec fn is_system_mount_text(mount: Seq<char>) -> bool {
    mount.len() >= 2 && mount[0] == 'C' && mount[1] == ':'
}

/// Whether `mount` is the mount point of the system volume.
pub fn is_system_mount(mount: &str) -> (b: bool)
    ensures
        b == is_system_mount_text(mount@),
{
    let chars = crate::text::chars_of(mount);
    chars.len() >= 2 && chars[0] == 'C' && chars[1] == ':'
}

/// The grid of per-core graphs for `n` cores when `fit` graphs fit side by side:
/// at least one and at most `n` columns, and as many rows as it takes.
pub fn grid_shape(n: usize, fit: usize) -> (shape: (usize, usize))
    requires
        n > 0,
    ensures
        shape.0 == (if fit < 1 {
            1
        } else if fit > n {
            n as int
        } else {
            fit as int
        }),
        shape.1 * shape.0 >= n,
        (shape.1 - 1) * shape.0 < n,
{
    let cols = if fit < 1 {
        1
    } else if fit > n {
        n
    } else {
        fit
    };
    let q = (n - 1) / cols;
    let rows = q + 1;
    assert(rows * cols >= n && (rows - 1) * cols < n) by (nonlinear_arith)
        requires
            cols >= 1,
            n >= 1,
            q == (n - 1) / (cols as int),
            rows == q + 1,
    ;
    (cols, rows)
}

pub const KIB: u64 = 1024;

pub const MIB: u64 = 1048576;

pub const GIB: u64 = 1073741824;

pub const TIB: u64 = 1099511627776;

/// A byte count as shown: in TB with two decimals from 1 TiB, in GB, MB or KB
/// with one decimal from 1 GiB, 1 MiB or 1 KiB, else in bytes. The count is
/// first taken to the nearest `f64`, and decimals are rounded half to even.
pub open spec fn bytes_text(bytes: u64) -> Seq<char> {
    let v = f64_value(bytes as nat);
    if v >= TIB {
        two_decimals(round_ratio(v, TIB as nat, 100)) + " ТБ"@
    } else if v >= GIB {
        one_decimal(round_ratio(v, GIB as nat, 10)) + " ГБ"@
    } else if v >= MIB {
        one_decimal(round_ratio(v, MIB as nat, 10)) + " МБ"@
    } else if v >= KIB {
        one_decimal(round_ratio(v, KIB as nat, 10)) + " КБ"@
    } else {
        decimal(bytes as nat) + " Б"@
    }
}

/// Writes a byte count in KB, MB, GB or TB.
pub fn fmt_bytes(bytes: u64) -> (res: String)
    ensures
        res@ == bytes_text(bytes),
{
    let v = f64_value_of(bytes);
    let mut out = String::new();
    if v >= TIB as u128 {
        let u = rounded_units(v, TIB as u128, 100);
        push_two_decimals(&mut out, u);
        out.append(" ТБ");
    } else if v >= GIB as u128 {
        let u = rounded_units(v, GIB as u128, 10);
        push_one_decimal(&mut out, u);
        out.append(" ГБ");
    } else if v >= MIB as u128 {
        let u = rounded_units(v, MIB as u128, 10);
        push_one_decimal(&mut out, u);
        out.append(" МБ");
    } else if v >= KIB as u128 {
        let u = rounded_units(v, KIB as u128, 10);
        push_one_decimal(&mut out, u);
        out.append(" КБ");
    } else {
        push_decimal(&mut out, bytes);
        out.append(" Б");
    }
    assert(out@ =~= bytes_text(bytes));
    out
}

/// A cache size given in KB, as shown: in MB with one decimal from 1024 KB on
/// (the count taken to the nearest `f64` first), else in KB.
pub open spec fn cache_text(kb: u64) -> Seq<char> {
    if kb >= 1024 {
        one_decimal(round_ratio(f64_value(kb as nat), 1024, 10)) + " MB"@
    } else {
        decimal(kb as nat) + " KB"@
    }
}

/// Writes a cache size given in KB.
pub fn format_cache(kb: u64) -> (res: String)
    ensures
        res@ == cache_text(kb),
{
    let mut out = String::new();
    if kb >= 1024 {
        let v = f64_value_of(kb);
        let u = rounded_units(v, 1024, 10);
        push_one_decimal(&mut out, u);
        out.append(" MB");
    } else {
        push_decimal(&mut out, kb);
        out.append(" KB");
    }
    assert(out@ =~= cache_text(kb));
    out
}

/// An uptime in seconds, as shown: days, hours, minutes and seconds, the
/// leading zero parts left out down to minutes.
pub open spec fn uptime_text(secs: u64) -> Seq<char> {
    let days = secs / 86400;
    let hours = (secs % 86400) / 3600;
    let mins = (secs % 3600) / 60;
    let sec = secs % 60;
    if days > 0 {
        decimal(days as nat) + "д "@ + decimal(hours as nat) + "ч "@ + decimal(mins as nat) + "м "@
            + decimal(sec as nat) + "с"@
    } else if hours > 0 {
        decimal(hours as nat) + "ч "@ + decimal(mins as nat) + "м "@ + decimal(sec as nat) + "с"@
    } else {
        decimal(mins as nat) + "м "@ + decimal(sec as nat) + "с"@
    }
}

/// The uptime text shows the days, hours, minutes and seconds that add back
/// to the uptime (`d·86400 + h·3600 + m·60 + s`, with `h < 24`, `m < 60`,
/// `s < 60`): all four from one day on, from hours down within a day, minutes
/// and seconds within an hour.
pub proof fn lemma_uptime_parts(secs: u64, d: nat, h: nat, m: nat, s: nat)
    requires
        h < 24,
        m < 60,
        s < 60,
        d * 86400 + h * 3600 + m * 60 + s == secs,
    ensures
        uptime_text(secs) == if d > 0 {
            decimal(d) + "д "@ + decimal(h) + "ч "@ + decimal(m) + "м "@ + decimal(s) + "с"@
        } else if h > 0 {
            decimal(h) + "ч "@ + decimal(m) + "м "@ + decimal(s) + "с"@
        } else {
            decimal(m) + "м "@ + decimal(s) + "с"@
        },
{
    let x = secs as int;
    let (di, hi, mi, si) = (d as int, h as int, m as int, s as int);
    lemma_fundamental_div_mod_converse(x, 86400, di, hi * 3600 + mi * 60 + si);
    lemma_fundamental_div_mod_converse(hi * 3600 + mi * 60 + si, 3600, hi, mi * 60 + si);
    lemma_fundamental_div_mod_converse(x, 3600, di * 24 + hi, mi * 60 + si);
    lemma_fundamental_div_mod_converse(mi * 60 + si, 60, mi, si);
    lemma_fundamental_div_mod_converse(x, 60, (di * 24 + hi) * 60 + mi, si);
}

/// Writes an uptime given in seconds.
pub fn format_uptime(secs: u64) -> (res: String)
    ensures
        res@ == uptime_text(secs),
{
    let days = secs / 86400;
    let hours = (secs % 86400) / 3600;
    let mins = (secs % 3600) / 60;
    let sec = secs % 60;
    let mut out = String::new();
    if days > 0 {
        push_decimal(&mut out, days);
        out.append("д ");
        push_decimal(&mut out, hours);
        out.append("ч ");
    } else if hours > 0 {
        push_decimal(&mut out, hours);
        out.append("ч ");
    }
    push_decimal(&mut out, mins);
    out.append("м ");
    push_decimal(&mut out, sec);
    out.append("с");
    assert(out@ =~= uptime_text(secs));
    out
}

} // verus!
