use vstd::prelude::*;

use crate::text::{lower_of, lowercase, str_eq};

verus! {

/// Failure to parse a tier name.
#[derive(Clone, Copy, Debug, PartialEq, Eq, Structural)]
pub struct TierParseError;

/// The tier named by an already-lowercased name, if any.
pub open spec fn spec_parse_tier(lower: Seq<char>) -> Result<ThumbnailTier, TierParseError> {
    if lower == "micro"@ {
        Ok(ThumbnailTier::Micro)
    } else if lower == "preview"@ {
        Ok(ThumbnailTier::Preview)
    } else if lower == "loupe"@ {
        Ok(ThumbnailTier::Loupe)
    } else {
        Err(TierParseError)
    }
}

/// One of three fixed output profiles for derived thumbnails, each with its
/// own size and quality policy.
#[derive(Clone, Copy, Debug, PartialEq, Eq, Structural)]
pub enum ThumbnailTier {
    /// Small grid thumbnails: 300 px long edge, quality 80.
    Micro,
    /// Enlarged previews: 1600 px long edge, quality 85.
    Preview,
    /// Native-resolution loupe view: extracted bytes returned unmodified.
    Loupe,
}

impl ThumbnailTier {
    pub open spec fn spec_max_dimension(self) -> Option<u32> {
        match self {
            ThumbnailTier::Micro => Some(300u32),
            ThumbnailTier::Preview => Some(1600u32),
            ThumbnailTier::Loupe => None,
        }
    }

    /// Longest-edge bound for this tier; `None` means native resolution.
    pub fn max_dimension(&self) -> (r: Option<u32>)
        ensures
            r == self.spec_max_dimension(),
    {
        match self {
            ThumbnailTier::Micro => Some(300),
            ThumbnailTier::Preview => Some(1600),
            ThumbnailTier::Loupe => None,
        }
    }

    pub open spec fn spec_jpeg_quality(self) -> u8 {
        match self {
            ThumbnailTier::Micro => 80u8,
            ThumbnailTier::Preview => 85u8,
            ThumbnailTier::Loupe => 85u8,
        }
    }

    /// Output encoding quality for this tier.
    pub fn jpeg_quality(&self) -> (r: u8)
        ensures
            r == self.spec_jpeg_quality(),
    {
        match self {
            ThumbnailTier::Micro => 80,
            ThumbnailTier::Preview => 85,
            ThumbnailTier::Loupe => 85,
        }
    }

    pub open spec fn spec_exiftool_tag(self) -> Seq<char> {
        match self {
            ThumbnailTier::Micro => "PreviewImage"@,
            ThumbnailTier::Preview => "PreviewImage"@,
            ThumbnailTier::Loupe => "JpgFromRaw"@,
        }
    }

    /// Which embedded-preview tag the external extractor is asked for.
    pub fn exiftool_tag(&self) -> (r: &'static str)
        ensures
            r@ == self.spec_exiftool_tag(),
    {
        match self {
            ThumbnailTier::Micro => "PreviewImage",
            ThumbnailTier::Preview => "PreviewImage",
            ThumbnailTier::Loupe => "JpgFromRaw",
        }
    }

    pub open spec fn spec_dir_name(self) -> Seq<char> {
        match self {
            ThumbnailTier::Micro => "micro"@,
            ThumbnailTier::Preview => "preview"@,
            ThumbnailTier::Loupe => "loupe"@,
        }
    }

    /// The on-disk subdirectory name for this tier, in place of a `Display`
    /// impl.
    pub fn dir_name(&self) -> (r: &'static str)
        ensures
            r@ == self.spec_dir_name(),
    {
        match self {
            ThumbnailTier::Micro => "micro",
            ThumbnailTier::Preview => "preview",
            ThumbnailTier::Loupe => "loupe",
        }
    }
}

impl ThumbnailTier {
    /// Parses a tier name, ignoring case: `micro`, `preview`, or `loupe`.
    pub fn parse(s: &str) -> (r: Result<ThumbnailTier, TierParseError>)
        ensures
            r == spec_parse_tier(lower_of(s@)),
    {
        let lower = lowercase(s);
        if str_eq(lower.as_str(), "micro") {
            Ok(ThumbnailTier::Micro)
        } else if str_eq(lower.as_str(), "preview") {
            Ok(ThumbnailTier::Preview)
        } else if str_eq(lower.as_str(), "loupe") {
            Ok(ThumbnailTier::Loupe)
        } else {
            Err(TierParseError)
        }
    }
}

impl core::str::FromStr for ThumbnailTier {
    type Err = TierParseError;

    fn from_str(s: &str) -> Result<ThumbnailTier, TierParseError> {
        ThumbnailTier::parse(s)
    }
}

/// Configuration for thumbnail generation and the per-tier memory budgets.
#[derive(Clone, Debug)]
pub struct ThumbnailConfig {
    pub micro_size: u32,
    pub preview_size: u32,
    pub micro_quality: u8,
    pub preview_quality: u8,
    pub micro_memory_budget: usize,
    pub preview_memory_budget: usize,
    pub loupe_memory_budget: usize,
}

impl Default for ThumbnailConfig {
    /// 300 px / 1600 px tiers at quality 80 / 85, with 150 MB, 200 MB and
    /// 100 MB memory budgets.
    fn default() -> (r: Self)
        ensures
            r.micro_size == 300,
            r.preview_size == 1600,
            r.micro_quality == 80,
            r.preview_quality == 85,
            r.micro_memory_budget == 157286400,
            r.preview_memory_budget == 209715200,
            r.loupe_memory_budget == 104857600,
    {
        ThumbnailConfig {
            micro_size: 300,
            preview_size: 1600,
            micro_quality: 80,
            preview_quality: 85,
            micro_memory_budget: 150 * 1024 * 1024,
            preview_memory_budget: 200 * 1024 * 1024,
            loupe_memory_budget: 100 * 1024 * 1024,
        }
    }
}

} // verus!
