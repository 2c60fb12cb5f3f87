//! The small enumerations of the configuration model and their display names.

use vstd::prelude::*;
use vstd::string::*;

verus! {

/// The output format of a target.
#[derive(Debug, Clone, Copy, PartialEq, Eq, Structural)]
pub enum TargetType {
    M3u,
    Strm,
}

impl TargetType {
    pub open spec fn display_name(self) -> Seq<char> {
        match self {
            TargetType::M3u => "M3u"@,
            TargetType::Strm => "Strm"@,
        }
    }

    /// The display name, as `Display` writes it.
    pub fn to_string(&self) -> (r: String)
        ensures
            r@ == self.display_name(),
    {
        match self {
            TargetType::M3u => String::from_str("M3u"),
            TargetType::Strm => String::from_str("Strm"),
        }
    }
}

/// The order in which the filter (f), rename (r) and map (m) steps run.
#[derive(Debug, Clone, Copy, PartialEq, Eq, Structural)]
pub enum ProcessingOrder {
    Frm,
    Fmr,
    Rfm,
    Rmf,
    Mfr,
    Mrf,
}

impl ProcessingOrder {
    pub open spec fn display_name(self) -> Seq<char> {
        match self {
            ProcessingOrder::Frm => "filter, rename, map"@,
            ProcessingOrder::Fmr => "filter, map, rename"@,
            ProcessingOrder::Rfm => "rename, filter, map"@,
            ProcessingOrder::Rmf => "rename, map, filter"@,
            ProcessingOrder::Mfr => "map, filter, rename"@,
            ProcessingOrder::Mrf => "map, rename, filter"@,
        }
    }

    /// The display name, as `Display` writes it.
    pub fn to_string(&self) -> (r: String)
        ensures
            r@ == self.display_name(),
    {
        match self {
            ProcessingOrder::Frm => String::from_str("filter, rename, map"),
            ProcessingOrder::Fmr => String::from_str("filter, map, rename"),
            ProcessingOrder::Rfm => String::from_str("rename, filter, map"),
            ProcessingOrder::Rmf => String::from_str("rename, map, filter"),
            ProcessingOrder::Mfr => String::from_str("map, filter, rename"),
            ProcessingOrder::Mrf => String::from_str("map, rename, filter"),
        }
    }
}

/// A field of a playlist item that filters, renames and counters address.
#[derive(Debug, Clone, Copy, PartialEq, Eq, Structural)]
pub enum ItemField {
    Group,
    Name,
    Title,
    Url,
}

impl ItemField {
    pub open spec fn display_name(self) -> Seq<char> {
        match self {
            ItemField::Group => "Group"@,
            ItemField::Name => "Name"@,
            ItemField::Title => "Title"@,
            ItemField::Url => "Url"@,
        }
    }

    /// The display name, as `Display` writes it.
    pub fn to_string(&self) -> (r: String)
        ensures
            r@ == self.display_name(),
    {
        match self {
            ItemField::Group => String::from_str("Group"),
            ItemField::Name => String::from_str("Name"),
            ItemField::Title => String::from_str("Title"),
            ItemField::Url => String::from_str("Url"),
        }
    }
}

/// Whether a filter keeps (`Include`) or drops (`Discard`) what it matches.
#[derive(Debug, Clone, Copy, PartialEq, Eq, Structural)]
pub enum FilterMode {
    Discard,
    Include,
}

#[derive(Debug, Clone, Copy, PartialEq, Eq, Structural)]
pub enum SortOrder {
    Asc,
    Desc,
}

} // verus!
