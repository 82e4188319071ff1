use tmez::performance::{
    disk_kind_label, disk_kind_max_throughput, grid_shape, is_system_mount, sensor_icon, sensor_title, DiskKind,
    Rgb, Sensor,
};
use tmez::tabs::Tab;
use tmez::labels::{
    cache_label, memory_type_suffix, slots_label, speed_label, text_or_dash, virtualization_label,
};

#[test]
fn sensor_list_for_volumes() {
    assert_eq!(
        Sensor::build_list(2),
        vec![Sensor::Cpu, Sensor::Memory, Sensor::Disk(0), Sensor::Disk(1), Sensor::Network, Sensor::Nvidia]
    );
    assert_eq!(Sensor::build_list(0), vec![Sensor::Cpu, Sensor::Memory, Sensor::Network, Sensor::Nvidia]);
}

#[test]
fn sensor_colours_and_icons() {
    assert_eq!(Sensor::Cpu.color(), Rgb { r: 80, g: 180, b: 255 });
    assert_eq!(Sensor::Memory.color(), Rgb { r: 220, g: 100, b: 220 });
    assert_eq!(Sensor::Disk(3).color(), Rgb { r: 120, g: 220, b: 120 });
    assert_eq!(Sensor::Network.color(), Rgb { r: 80, g: 200, b: 255 });
    assert_eq!(Sensor::Nvidia.color(), Rgb { r: 160, g: 180, b: 210 });
    assert_eq!(sensor_icon(&Sensor::Cpu), "🔲");
    assert_eq!(sensor_icon(&Sensor::Disk(0)), "◉");
    assert_eq!(sensor_icon(&Sensor::Nvidia), "▣");
}

#[test]
fn sensor_titles() {
    let mounts = vec!["C:\\".to_string(), "/home".to_string()];
    assert_eq!(sensor_title(&Sensor::Cpu, &mounts), "ЦП");
    assert_eq!(sensor_title(&Sensor::Memory, &mounts), "Память");
    assert_eq!(sensor_title(&Sensor::Disk(1), &mounts), "/home");
    assert_eq!(sensor_title(&Sensor::Disk(7), &mounts), "Диск 7");
    assert_eq!(sensor_title(&Sensor::Network, &mounts), "Сеть");
    assert_eq!(sensor_title(&Sensor::Nvidia, &mounts), "NVIDIA");
}

#[test]
fn disk_kinds() {
    assert_eq!(disk_kind_label(DiskKind::Hdd), "HDD");
    assert_eq!(disk_kind_label(DiskKind::Ssd), "SSD");
    assert_eq!(disk_kind_label(DiskKind::Unknown), "—");
    assert_eq!(disk_kind_max_throughput(DiskKind::Hdd), 150 * 1024 * 1024);
    assert_eq!(disk_kind_max_throughput(DiskKind::Ssd), 500 * 1024 * 1024);
    assert_eq!(disk_kind_max_throughput(DiskKind::Unknown), 200 * 1024 * 1024);
    assert!(is_system_mount("C:\\"));
    assert!(!is_system_mount("D:\\"));
    assert!(!is_system_mount("C"));
    assert!(!is_system_mount("/"));
}

#[test]
fn tabs_in_order() {
    let all = Tab::all();
    assert_eq!(all.len(), 8);
    assert_eq!(all[0], Tab::Summary);
    assert_eq!(all[7], Tab::Settings);
    assert_eq!(Tab::Summary.label(), "📊  Обзор");
    assert_eq!(Tab::Performance.label(), "📈  Производительность");
    assert_eq!(Tab::Processes.label(), "📋  Процессы");
    assert_eq!(Tab::SystemInfo.label(), "ℹ  Система");
    assert_eq!(Tab::StartupApps.label(), "🚀  Автозагрузка");
    assert_eq!(Tab::Users.label(), "👤  Пользователи");
    assert_eq!(Tab::Services.label(), "⚙  Службы");
    assert_eq!(Tab::Settings.label(), "🔧  Настройки");
}

#[test]
fn table_labels() {
    assert_eq!(virtualization_label(true), "Включена");
    assert_eq!(virtualization_label(false), "Отключена");
    assert_eq!(cache_label(0), "—");
    assert_eq!(cache_label(512), "512 KB");
    assert_eq!(cache_label(16384), "16.0 MB");
    assert_eq!(speed_label(3200), "3200 MT/s");
    assert_eq!(speed_label(0), "—");
    assert_eq!(text_or_dash(""), "—");
    assert_eq!(text_or_dash("DIMM"), "DIMM");
    assert_eq!(slots_label(2, 4), "2 из 4");
    assert_eq!(slots_label(2, 0), "—");
    assert_eq!(memory_type_suffix(""), "");
    assert_eq!(memory_type_suffix("DDR4"), " DDR4");
}

#[test]
fn core_grid_shapes() {
    assert_eq!(grid_shape(8, 3), (3, 3));
    assert_eq!(grid_shape(8, 4), (4, 2));
    assert_eq!(grid_shape(2, 5), (2, 1));
    assert_eq!(grid_shape(5, 0), (1, 5));
    assert_eq!(grid_shape(1, 1), (1, 1));
}

#[test]
fn every_tab_listed_once() {
    let all = Tab::all();
    for t in [
        Tab::Summary,
        Tab::Performance,
        Tab::Processes,
        Tab::SystemInfo,
        Tab::StartupApps,
        Tab::Users,
        Tab::Services,
        Tab::Settings,
    ] {
        assert_eq!(all.iter().filter(|&&x| x == t).count(), 1);
    }
}
