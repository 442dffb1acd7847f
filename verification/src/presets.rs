//! Built-in configurations for common use cases.

use vstd::prelude::*;
use crate::rfdc::{
    fresh_block, is_fresh_tile, AdcBlock, AdcTile, DecimationFactor, MixerMode, NyquistZone,
    RfdcConfig,
};
use crate::units::Micro;

verus! {

/// Default ZCU208 configuration: all tiles at 4.0 GSPS, 1st Nyquist zone, mixer off, no
/// decimation.
pub fn default_zcu208() -> (config: RfdcConfig)
    ensures
        forall|t: int| 0 <= t < 4 ==> is_fresh_tile(#[trigger] config.adc_tiles[t], t as usize),
{
    RfdcConfig::default()
}

/// A fresh tile except for its sample rate, and for the zone of its blocks and how they mix and
/// decimate.
pub open spec fn is_tuned_tile(
    tile: AdcTile,
    index: usize,
    rate: Micro,
    zone: NyquistZone,
    nco: Micro,
    decimation: DecimationFactor,
) -> bool {
    &&& is_fresh_tile(
        AdcTile {
            sample_rate_gsps: 4_000_000,
            blocks: [fresh_block(0), fresh_block(1)],
            ..tile
        },
        index,
    )
    &&& tile.sample_rate_gsps == rate
    &&& forall|b: int|
        0 <= b < 2 ==> #[trigger] tile.blocks[b] == (AdcBlock {
            nyquist_zone: zone,
            planner_zone: zone.number() as u32,
            mixer_mode: MixerMode::FineMix,
            nco_freq_mhz: nco,
            decimation,
            ..fresh_block(b as usize)
        })
}

fn tuned_tile(
    index: usize,
    rate: Micro,
    zone: NyquistZone,
    nco: Micro,
    decimation: DecimationFactor,
) -> (tile: AdcTile)
    ensures
        is_tuned_tile(tile, index, rate, zone, nco, decimation),
{
    let fresh: AdcTile = AdcTile::new(index);
    let b0: AdcBlock = AdcBlock {
        nyquist_zone: zone,
        planner_zone: zone.index(),
        mixer_mode: MixerMode::FineMix,
        nco_freq_mhz: nco,
        decimation,
        ..fresh.blocks[0]
    };
    let b1: AdcBlock = AdcBlock {
        nyquist_zone: zone,
        planner_zone: zone.index(),
        mixer_mode: MixerMode::FineMix,
        nco_freq_mhz: nco,
        decimation,
        ..fresh.blocks[1]
    };
    let tile = AdcTile {
        sample_rate_gsps: rate,
        blocks: [b0, b1],
        ..fresh
    };
    assert([fresh_block(0), fresh_block(1)]@ =~= seq![fresh_block(0), fresh_block(1)]);
    tile
}

/// Wideband capture preset: 5.0 GSPS, 2nd Nyquist zone, fine mixer at 1250 MHz.
pub fn wideband_capture() -> (config: RfdcConfig)
    ensures
        forall|t: int|
            0 <= t < 4 ==> is_tuned_tile(
                #[trigger] config.adc_tiles[t],
                t as usize,
                5_000_000,
                NyquistZone::Zone2,
                1_250_000_000,
                DecimationFactor::X1,
            ),
{
    let zone: NyquistZone = NyquistZone::Zone2;
    let off: DecimationFactor = DecimationFactor::X1;
    RfdcConfig {
        adc_tiles: [
            tuned_tile(0, 5_000_000, zone, 1_250_000_000, off),
            tuned_tile(1, 5_000_000, zone, 1_250_000_000, off),
            tuned_tile(2, 5_000_000, zone, 1_250_000_000, off),
            tuned_tile(3, 5_000_000, zone, 1_250_000_000, off),
        ],
    }
}

/// Narrowband DDC preset: 2.0 GSPS, decimation by 16, NCO at 500 MHz.
pub fn narrowband_ddc() -> (config: RfdcConfig)
    ensures
        forall|t: int|
            0 <= t < 4 ==> is_tuned_tile(
                #[trigger] config.adc_tiles[t],
                t as usize,
                2_000_000,
                NyquistZone::Zone1,
                500_000_000,
                DecimationFactor::X16,
            ),
{
    let zone: NyquistZone = NyquistZone::Zone1;
    let by: DecimationFactor = DecimationFactor::X16;
    RfdcConfig {
        adc_tiles: [
            tuned_tile(0, 2_000_000, zone, 500_000_000, by),
            tuned_tile(1, 2_000_000, zone, 500_000_000, by),
            tuned_tile(2, 2_000_000, zone, 500_000_000, by),
            tuned_tile(3, 2_000_000, zone, 500_000_000, by),
        ],
    }
}

/// Single-tile configuration for minimal resource usage: only tile 0 enabled.
pub fn single_tile() -> (config: RfdcConfig)
    ensures
        forall|t: int|
            0 <= t < 4 ==> (#[trigger] config.adc_tiles[t]).enabled == (t == 0) && is_fresh_tile(
                AdcTile { enabled: true, ..config.adc_tiles[t] },
                t as usize,
            ),
{
    RfdcConfig {
        adc_tiles: [
            AdcTile::new(0),
            AdcTile { enabled: false, ..AdcTile::new(1) },
            AdcTile { enabled: false, ..AdcTile::new(2) },
            AdcTile { enabled: false, ..AdcTile::new(3) },
        ],
    }
}

/// Tuning a fresh tile leaves its blocks alike but for their number, and what the planner shows
/// is the zone they are in; the imperfections stay those of a fresh block.
pub proof fn tuned_tiles_have_two_blocks_alike(
    tile: AdcTile,
    index: usize,
    rate: Micro,
    zone: NyquistZone,
    nco: Micro,
    decimation: DecimationFactor,
)
    requires
        is_tuned_tile(tile, index, rate, zone, nco, decimation),
    ensures
        forall|b: int|
            0 <= b < 2 ==> {
                let block = #[trigger] tile.blocks[b];
                &&& block.index == b
                &&& block.planner_zone == block.nyquist_zone.number()
                &&& block.non_idealities == fresh_block(0).non_idealities
                &&& block.enabled
                &&& (AdcBlock { index: 0, ..block }) == (AdcBlock {
                    index: 0,
                    ..tile.blocks[0]
                })
            },
        tile.enabled && tile.index == index,
{
}

} // verus!
