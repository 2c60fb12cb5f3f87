//! Playlist items and groups, and access to the item fields that filters,
//! renames and counters address.

use vstd::prelude::*;
use vstd::string::*;
use crate::json_utils::{JsonValue, as_object, get_u64_from_serde_value, json_get, json_object_get, spec_get_u64};
use crate::model::ItemField;
use crate::text::{parse_u32, parse_unsigned};

verus! {

/// The section of an Xtream provider an item comes from.
#[derive(Debug, Clone, Copy, PartialEq, Eq, Structural)]
pub enum XtreamCluster {
    Live,
    Video,
    Series,
}

#[derive(Debug, Clone, Copy, PartialEq, Eq, Structural)]
pub enum PlaylistItemType {
    Live,
    Video,
    Series,
    SeriesInfo,
    Catchup,
    LiveUnknown,
    LiveHls,
}

pub struct PlaylistItemHeader {
    /// The provider's id of the stream.
    pub id: String,
    /// A hash identifying the stream, used to detect duplicates.
    pub uuid: u128,
    pub name: String,
    pub chno: String,
    pub group: String,
    pub title: String,
    pub url: String,
    pub xtream_cluster: XtreamCluster,
    pub item_type: PlaylistItemType,
    pub virtual_id: u32,
    /// Further provider attributes, a JSON object when present.
    pub additional_properties: Option<JsonValue>,
}

pub struct PlaylistItem {
    pub header: PlaylistItemHeader,
}

pub struct PlaylistGroup {
    pub id: u32,
    pub title: String,
    pub channels: Vec<PlaylistItem>,
    pub xtream_cluster: XtreamCluster,
}

/// An item as the contracts see it: its texts as character sequences.
pub struct ItemSpec {
    pub id: Seq<char>,
    pub uuid: u128,
    pub name: Seq<char>,
    pub chno: Seq<char>,
    pub group: Seq<char>,
    pub title: Seq<char>,
    pub url: Seq<char>,
    pub xtream_cluster: XtreamCluster,
    pub item_type: PlaylistItemType,
    pub virtual_id: u32,
    pub additional_properties: Option<JsonValue>,
}

impl View for PlaylistItem {
    type V = ItemSpec;

    open spec fn view(&self) -> ItemSpec {
        ItemSpec {
            id: self.header.id@,
            uuid: self.header.uuid,
            name: self.header.name@,
            chno: self.header.chno@,
            group: self.header.group@,
            title: self.header.title@,
            url: self.header.url@,
            xtream_cluster: self.header.xtream_cluster,
            item_type: self.header.item_type,
            virtual_id: self.header.virtual_id,
            additional_properties: self.header.additional_properties,
        }
    }
}

pub open spec fn items_view(items: Seq<PlaylistItem>) -> Seq<ItemSpec> {
    items.map_values(|i: PlaylistItem| i@)
}

/// A group as the contracts see it: its channels as a sequence.
pub struct GroupSpec {
    pub id: u32,
    pub title: Seq<char>,
    pub channels: Seq<ItemSpec>,
    pub xtream_cluster: XtreamCluster,
}

impl View for PlaylistGroup {
    type V = GroupSpec;

    open spec fn view(&self) -> GroupSpec {
        GroupSpec {
            id: self.id,
            title: self.title@,
            channels: items_view(self.channels@),
            xtream_cluster: self.xtream_cluster,
        }
    }
}

pub open spec fn groups_view(groups: Seq<PlaylistGroup>) -> Seq<GroupSpec> {
    groups.map_values(|g: PlaylistGroup| g@)
}

/// All channels of a playlist, group after group.
pub open spec fn all_channels(groups: Seq<GroupSpec>) -> Seq<ItemSpec>
    decreases groups.len(),
{
    if groups.len() == 0 {
        seq![]
    } else {
        all_channels(groups.drop_last()) + groups.last().channels
    }
}

/// The text of an item field.
pub open spec fn field_value(item: ItemSpec, field: ItemField) -> Seq<char> {
    match field {
        ItemField::Group => item.group,
        ItemField::Name => item.name,
        ItemField::Title => item.title,
        ItemField::Url => item.url,
    }
}

/// `item` with the text of `field` replaced by `value`.
pub open spec fn with_field(item: ItemSpec, field: ItemField, value: Seq<char>) -> ItemSpec {
    match field {
        ItemField::Group => ItemSpec { group: value, ..item },
        ItemField::Name => ItemSpec { name: value, ..item },
        ItemField::Title => ItemSpec { title: value, ..item },
        ItemField::Url => ItemSpec { url: value, ..item },
    }
}

/// Reads an item field.
pub fn get_field_value(item: &PlaylistItem, field: ItemField) -> (r: &str)
    ensures
        r@ == field_value(item@, field),
{
    match field {
        ItemField::Group => item.header.group.as_str(),
        ItemField::Name => item.header.name.as_str(),
        ItemField::Title => item.header.title.as_str(),
        ItemField::Url => item.header.url.as_str(),
    }
}

/// Replaces an item field.
pub fn set_field_value(item: &mut PlaylistItem, field: ItemField, value: String)
    ensures
        final(item)@ == with_field(old(item)@, field, value@),
{
    match field {
        ItemField::Group => item.header.group = value,
        ItemField::Name => item.header.name = value,
        ItemField::Title => item.header.title = value,
        ItemField::Url => item.header.url = value,
    }
}

/// A header field that a mapping counter writes.
#[derive(Debug, Clone, Copy, PartialEq, Eq, Structural)]
pub enum HeaderField {
    Id,
    Name,
    Chno,
    Group,
    Title,
    Url,
}

pub open spec fn header_field_value(item: ItemSpec, field: HeaderField) -> Seq<char> {
    match field {
        HeaderField::Id => item.id,
        HeaderField::Name => item.name,
        HeaderField::Chno => item.chno,
        HeaderField::Group => item.group,
        HeaderField::Title => item.title,
        HeaderField::Url => item.url,
    }
}

pub open spec fn with_header_field(item: ItemSpec, field: HeaderField, value: Seq<char>) -> ItemSpec {
    match field {
        HeaderField::Id => ItemSpec { id: value, ..item },
        HeaderField::Name => ItemSpec { name: value, ..item },
        HeaderField::Chno => ItemSpec { chno: value, ..item },
        HeaderField::Group => ItemSpec { group: value, ..item },
        HeaderField::Title => ItemSpec { title: value, ..item },
        HeaderField::Url => ItemSpec { url: value, ..item },
    }
}

/// The contract view of a header.
pub open spec fn header_spec(h: PlaylistItemHeader) -> ItemSpec {
    (PlaylistItem { header: h })@
}

impl PlaylistItemHeader {
    /// Reads a header field.
    pub fn get_field(&self, field: HeaderField) -> (r: &str)
        ensures
            r@ == header_field_value(header_spec(*self), field),
    {
        match field {
            HeaderField::Id => self.id.as_str(),
            HeaderField::Name => self.name.as_str(),
            HeaderField::Chno => self.chno.as_str(),
            HeaderField::Group => self.group.as_str(),
            HeaderField::Title => self.title.as_str(),
            HeaderField::Url => self.url.as_str(),
        }
    }

    /// Replaces a header field.
    pub fn set_field(&mut self, field: HeaderField, value: String)
        ensures
            header_spec(*final(self)) == with_header_field(header_spec(*old(self)), field, value@),
    {
        match field {
            HeaderField::Id => self.id = value,
            HeaderField::Name => self.name = value,
            HeaderField::Chno => self.chno = value,
            HeaderField::Group => self.group = value,
            HeaderField::Title => self.title = value,
            HeaderField::Url => self.url = value,
        }
    }
}

/// The provider id of an item: its id as a number.
pub open spec fn provider_id(item: ItemSpec) -> Option<u32> {
    match parse_unsigned(item.id, 10, u32::MAX as nat) {
        Some(v) => Some(v as u32),
        None => None,
    }
}

impl PlaylistItem {
    /// The provider id of the item, if its id is a `u32`.
    pub fn get_provider_id(&self) -> (r: Option<u32>)
        ensures
            r == provider_id(self@),
    {
        parse_u32(self.header.id.as_str())
    }

    /// The duplicate-detection key of the item.
    pub fn get_uuid(&self) -> (r: u128)
        ensures
            r == self.header.uuid,
    {
        self.header.uuid
    }

    /// An additional property read as `u64` (a non-negative integer or a
    /// string holding one).
    pub fn get_additional_property_as_u64(&self, field: &str) -> (r: Option<u64>)
        ensures
            r == additional_property_u64(self@, field@),
    {
        match &self.header.additional_properties {
            Some(props) => match as_object(props) {
                Some(entries) => match json_object_get(entries, field) {
                    Some(v) => get_u64_from_serde_value(v),
                    None => None,
                },
                None => None,
            },
            None => None,
        }
    }
}

pub open spec fn additional_property_u64(item: ItemSpec, field: Seq<char>) -> Option<u64> {
    match item.additional_properties {
        Some(JsonValue::Object(entries)) => match json_get(entries@, field) {
            Some(v) => spec_get_u64(v),
            None => None,
        },
        _ => None,
    }
}

} // verus!
