//! The sort keys and orders a song list offers, with their display labels.

use vstd::prelude::*;
use vstd::string::*;

verus! {

/// The column a song list can be sorted by.
#[derive(Debug, Clone, Copy, PartialEq, Eq, Structural)]
pub enum SortField {
    /// Keep the catalog's order.
    Default,
    Title,
    Artist,
    Album,
    Duration,
    Size,
    CreateTime,
}

/// The direction of a sort.
#[derive(Debug, Clone, Copy, PartialEq, Eq, Structural)]
pub enum SortOrder {
    /// Keep the catalog's order.
    Default,
    Asc,
    Desc,
}

/// The label shown for a sort field.
pub open spec fn spec_display_name(f: SortField) -> Seq<char> {
    match f {
        SortField::Default => "默认"@,
        SortField::Title => "歌名"@,
        SortField::Artist => "歌手"@,
        SortField::Album => "专辑"@,
        SortField::Duration => "时长"@,
        SortField::Size => "大小"@,
        SortField::CreateTime => "创建时间"@,
    }
}

/// The direction reached by one click on a sort header: default cycles to
/// ascending, ascending to descending, descending back to default.
pub open spec fn spec_toggle(o: SortOrder) -> SortOrder {
    match o {
        SortOrder::Default => SortOrder::Asc,
        SortOrder::Asc => SortOrder::Desc,
        SortOrder::Desc => SortOrder::Default,
    }
}

/// The arrow appended to a sorted column's header.
pub open spec fn spec_arrow_symbol(o: SortOrder) -> Seq<char> {
    match o {
        SortOrder::Default => ""@,
        SortOrder::Asc => " ↑"@,
        SortOrder::Desc => " ↓"@,
    }
}

impl SortField {
    /// The label shown for this sort field.
    pub fn display_name(&self) -> (r: &'static str)
        ensures
            r@ == spec_display_name(*self),
    {
        match self {
            SortField::Default => "默认",
            SortField::Title => "歌名",
            SortField::Artist => "歌手",
            SortField::Album => "专辑",
            SortField::Duration => "时长",
            SortField::Size => "大小",
            SortField::CreateTime => "创建时间",
        }
    }

    /// Every sort field, in the order the header menu offers them.
    pub fn all_fields() -> (r: [SortField; 7])
        ensures
            r@ == seq![
                SortField::Default,
                SortField::Title,
                SortField::Artist,
                SortField::Album,
                SortField::Duration,
                SortField::Size,
                SortField::CreateTime,
            ],
    {
        let fields = [
            SortField::Default,
            SortField::Title,
            SortField::Artist,
            SortField::Album,
            SortField::Duration,
            SortField::Size,
            SortField::CreateTime,
        ];
        proof {
            assert(fields@ =~= seq![
                SortField::Default,
                SortField::Title,
                SortField::Artist,
                SortField::Album,
                SortField::Duration,
                SortField::Size,
                SortField::CreateTime,
            ]);
        }
        fields
    }
}

impl SortOrder {
    /// The direction reached by one more click on the header.
    pub fn toggle(&self) -> (r: Self)
        ensures
            r == spec_toggle(*self),
    {
        match self {
            SortOrder::Default => SortOrder::Asc,
            SortOrder::Asc => SortOrder::Desc,
            SortOrder::Desc => SortOrder::Default,
        }
    }

    /// The arrow appended to the sorted column's header.
    pub fn arrow_symbol(&self) -> (r: &'static str)
        ensures
            r@ == spec_arrow_symbol(*self),
    {
        match self {
            SortOrder::Default => "",
            SortOrder::Asc => " ↑",
            SortOrder::Desc => " ↓",
        }
    }
}

impl Default for SortField {
    /// The catalog's own order is the default.
    fn default() -> (r: Self)
        ensures
            r == SortField::Default,
    {
        SortField::Default
    }
}

impl Default for SortOrder {
    /// The catalog's own order is the default.
    fn default() -> (r: Self)
        ensures
            r == SortOrder::Default,
    {
        SortOrder::Default
    }
}

} // verus!
