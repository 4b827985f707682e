//! Disk geometry and the timing model that prices a sector access.

use vstd::prelude::*;
use crate::error::ConfigError;

verus! {

/// Immutable disk geometry together with its timing constants.
///
/// The geometry is advisory: a sector beyond `tracks_num * sectors_per_track`
/// is still located, on a track past the declared last one.
#[derive(Debug, Clone, Copy)]
pub struct Disk {
    tracks_num: u32,
    sectors_per_track: u32,
    next_track_seek_time: u32,
    rewind_seek_time: u32,
    rotation_latency_time: u32,
    sector_access_time: u32,
}

impl Disk {
    /// The invariant of a disk: a track holds at least one sector.
    #[verifier::type_invariant]
    pub open spec fn wf(self) -> bool {
        self.spec_sectors_per_track() > 0
    }

    /// Number of tracks the disk declares.
    pub closed spec fn spec_tracks_num(self) -> u32 {
        self.tracks_num
    }

    /// Number of sectors on one track; never zero.
    pub closed spec fn spec_sectors_per_track(self) -> u32 {
        self.sectors_per_track
    }

    /// Time to move the head across one track.
    pub closed spec fn spec_next_track_seek_time(self) -> u32 {
        self.next_track_seek_time
    }

    /// Time to bring the head back to the first track.
    pub closed spec fn spec_rewind_seek_time(self) -> u32 {
        self.rewind_seek_time
    }

    /// Time to wait for the sector to rotate under the head.
    pub closed spec fn spec_rotation_latency_time(self) -> u32 {
        self.rotation_latency_time
    }

    /// Time to transfer one sector.
    pub closed spec fn spec_sector_access_time(self) -> u32 {
        self.sector_access_time
    }

    /// The track that holds `sector`.
    pub open spec fn track_of(self, sector: u32) -> int {
        sector as int / self.spec_sectors_per_track() as int
    }

    /// The position of `sector` within its track.
    pub open spec fn offset_of(self, sector: u32) -> int {
        sector as int % self.spec_sectors_per_track() as int
    }

    /// Latency of reaching a sector at `offset` on `track`: a seek across
    /// `track` tracks, one rotational delay and one sector transfer. The
    /// position within the track and the rewind time play no part.
    pub open spec fn access_cost(self, track: int, offset: int) -> int {
        track * self.spec_next_track_seek_time() + self.spec_rotation_latency_time()
            + self.spec_sector_access_time()
    }

    /// Latency of fetching `sector` from the platter.
    pub open spec fn sector_cost(self, sector: u32) -> int {
        self.access_cost(self.track_of(sector), self.offset_of(sector))
    }

    /// A disk of the given geometry and timing. Fails where a track would hold
    /// no sector.
    pub fn new(
        tracks_num: u32,
        sectors_per_track: u32,
        next_track_seek_time: u32,
        rewind_seek_time: u32,
        rotation_latency_time: u32,
        sector_access_time: u32,
    ) -> (made: Result<Disk, ConfigError>)
        ensures
            match made {
                Ok(disk) => {
                    &&& sectors_per_track > 0
                    &&& disk.wf()
                    &&& disk.spec_tracks_num() == tracks_num
                    &&& disk.spec_sectors_per_track() == sectors_per_track
                    &&& disk.spec_next_track_seek_time() == next_track_seek_time
                    &&& disk.spec_rewind_seek_time() == rewind_seek_time
                    &&& disk.spec_rotation_latency_time() == rotation_latency_time
                    &&& disk.spec_sector_access_time() == sector_access_time
                },
                Err(error) => sectors_per_track == 0 && error == ConfigError::ZeroSectorsPerTrack,
            },
    {
        if sectors_per_track == 0 {
            Err(ConfigError::ZeroSectorsPerTrack)
        } else {
            Ok(
                Disk {
                    tracks_num,
                    sectors_per_track,
                    next_track_seek_time,
                    rewind_seek_time,
                    rotation_latency_time,
                    sector_access_time,
                },
            )
        }
    }

    /// Number of tracks the disk declares.
    pub fn tracks_num(&self) -> (value: u32)
        ensures
            value == self.spec_tracks_num(),
    {
        self.tracks_num
    }

    /// Number of sectors on one track; never zero.
    pub fn sectors_per_track(&self) -> (value: u32)
        ensures
            value == self.spec_sectors_per_track(),
            value > 0,
    {
        proof {
            use_type_invariant(self);
        }
        self.sectors_per_track
    }

    /// Time to move the head across one track.
    pub fn next_track_seek_time(&self) -> (value: u32)
        ensures
            value == self.spec_next_track_seek_time(),
    {
        self.next_track_seek_time
    }

    /// Time to bring the head back to the first track.
    pub fn rewind_seek_time(&self) -> (value: u32)
        ensures
            value == self.spec_rewind_seek_time(),
    {
        self.rewind_seek_time
    }

    /// Time to wait for the sector to rotate under the head.
    pub fn rotation_latency_time(&self) -> (value: u32)
        ensures
            value == self.spec_rotation_latency_time(),
    {
        self.rotation_latency_time
    }

    /// Time to transfer one sector.
    pub fn sector_access_time(&self) -> (value: u32)
        ensures
            value == self.spec_sector_access_time(),
    {
        self.sector_access_time
    }

    /// Latency of one access to `track`, whatever `sector_offset` is.
    pub fn simulate_access(&self, track: u32, sector_offset: u32) -> (cost: u32)
        requires
            self.access_cost(track as int, sector_offset as int) <= u32::MAX,
        ensures
            cost == self.access_cost(track as int, sector_offset as int),
            cost == track * self.spec_next_track_seek_time() + self.spec_rotation_latency_time()
                + self.spec_sector_access_time(),
    {
        assert(track * self.next_track_seek_time >= 0) by (nonlinear_arith);
        let seek_time = track * self.next_track_seek_time;
        seek_time + self.rotation_latency_time + self.sector_access_time
    }

    /// Splits a linear sector number into its track and its offset on that track.
    pub fn get_track_sector(&self, sector: u32) -> (place: (u32, u32))
        ensures
            place.0 == self.track_of(sector),
            place.1 == self.offset_of(sector),
            place.0 == sector as int / self.spec_sectors_per_track() as int,
            place.1 == sector as int % self.spec_sectors_per_track() as int,
    {
        proof {
            use_type_invariant(self);
        }
        let track = sector / self.sectors_per_track;
        let sector_offset = sector % self.sectors_per_track;
        (track, sector_offset)
    }
}

/// On a disk whose tracks hold at least one sector, no access costs less than
/// nothing.
pub proof fn lemma_sector_cost_is_natural(disk: Disk, sector: u32)
    requires
        disk.wf(),
    ensures
        0 <= disk.track_of(sector) <= sector,
        0 <= disk.offset_of(sector) < disk.spec_sectors_per_track(),
        disk.sector_cost(sector) >= 0,
{
    let per_track = disk.spec_sectors_per_track() as int;
    assert(0 <= sector as int / per_track <= sector) by (nonlinear_arith)
        requires
            per_track > 0,
            sector >= 0,
    ;
    assert(disk.track_of(sector) * disk.spec_next_track_seek_time() >= 0) by (nonlinear_arith)
        requires
            disk.track_of(sector) >= 0,
            disk.spec_next_track_seek_time() >= 0,
    ;
}

/// The cost of an access does not depend on the position within the track.
pub proof fn lemma_access_cost_ignores_offset(disk: Disk, track: int, first: int, second: int)
    ensures
        disk.access_cost(track, first) == disk.access_cost(track, second),
{
}

} // verus!
