use blockio_sim::disk::Disk;
use blockio_sim::error::ConfigError;

fn demo_disk() -> Disk {
    Disk::new(5, 100, 2, 10, 4, 1).unwrap()
}

#[test]
fn disk_new_keeps_its_parameters() {
    let disk = demo_disk();
    assert_eq!(disk.tracks_num(), 5);
    assert_eq!(disk.sectors_per_track(), 100);
    assert_eq!(disk.next_track_seek_time(), 2);
    assert_eq!(disk.rewind_seek_time(), 10);
    assert_eq!(disk.rotation_latency_time(), 4);
    assert_eq!(disk.sector_access_time(), 1);
}

#[test]
fn disk_rejects_zero_sectors_per_track() {
    assert_eq!(Disk::new(5, 0, 2, 10, 4, 1).err(), Some(ConfigError::ZeroSectorsPerTrack));
}

#[test]
fn disk_accepts_zero_tracks_and_zero_times() {
    let disk = Disk::new(0, 1, 0, 0, 0, 0).unwrap();
    assert_eq!(disk.get_track_sector(7), (7, 0));
    assert_eq!(disk.simulate_access(7, 0), 0);
}

#[test]
fn disk_locates_sector_by_division() {
    let disk = demo_disk();
    assert_eq!(disk.get_track_sector(0), (0, 0));
    assert_eq!(disk.get_track_sector(99), (0, 99));
    assert_eq!(disk.get_track_sector(100), (1, 0));
    assert_eq!(disk.get_track_sector(250), (2, 50));
}

#[test]
fn disk_geometry_is_advisory() {
    // Five tracks of a hundred sectors are declared; sector 12345 lies far beyond them.
    let disk = demo_disk();
    assert_eq!(disk.get_track_sector(12345), (123, 45));
    assert_eq!(disk.simulate_access(123, 45), 123 * 2 + 4 + 1);
    assert_eq!(disk.get_track_sector(u32::MAX), (42949672, 95));
}

#[test]
fn disk_cost_follows_the_formula() {
    let disk = demo_disk();
    assert_eq!(disk.simulate_access(0, 0), 5);
    assert_eq!(disk.simulate_access(1, 0), 7);
    assert_eq!(disk.simulate_access(4, 99), 13);
}

#[test]
fn disk_cost_ignores_the_offset() {
    let disk = demo_disk();
    for track in 0..5 {
        let first = disk.simulate_access(track, 0);
        for offset in [1, 17, 50, 99, 100, u32::MAX] {
            assert_eq!(disk.simulate_access(track, offset), first);
        }
    }
}

#[test]
fn disk_cost_ignores_the_rewind_time() {
    let slow = Disk::new(5, 100, 2, 1000, 4, 1).unwrap();
    let fast = Disk::new(5, 100, 2, 0, 4, 1).unwrap();
    assert_eq!(slow.simulate_access(3, 9), fast.simulate_access(3, 9));
}

#[test]
fn disk_cost_reaches_the_top_of_the_range() {
    let disk = Disk::new(1, 1, 1, 0, 0, 0).unwrap();
    assert_eq!(disk.simulate_access(u32::MAX, 0), u32::MAX);
}
