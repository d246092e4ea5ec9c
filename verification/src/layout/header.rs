use vstd::prelude::*;
use super::settings::{CrcConfig, Settings};

verus! {

/// Block header defining memory region and optional CRC configuration.
#[derive(Debug)]
pub struct Header {
    pub start_address: u32,
    /// Declared length of the block in bytes.
    pub length: u32,
    /// Per-header CRC settings, merged with the layout's at build time.
    pub crc: Option<CrcConfig>,
    /// The byte that fills gaps.
    pub padding: u8,
}

/// The padding byte used where a header gives none.
pub fn default_padding() -> (r: u8)
    ensures
        r == 0xFF,
{
    0xFF
}

impl Header {
    /// The CRC configuration in force for the block: the header's, with the
    /// layout's filling what the header leaves open; the layout's alone
    /// where the header has none; and nothing set where neither has any.
    pub open spec fn spec_effective_crc(self, settings: Settings) -> CrcConfig {
        match self.crc {
            Some(own) => own.spec_resolve(settings.crc),
            None => match settings.crc {
                Some(shared) => shared,
                None => CrcConfig::spec_empty(),
            },
        }
    }

    /// The CRC configuration in force for the block.
    pub fn effective_crc(&self, settings: &Settings) -> (r: CrcConfig)
        ensures
            r == self.spec_effective_crc(*settings),
    {
        match &self.crc {
            Some(own) => own.resolve(settings.crc.as_ref()),
            None => match &settings.crc {
                Some(shared) => shared.clone(),
                None => CrcConfig::default(),
            },
        }
    }
}

} // verus!
