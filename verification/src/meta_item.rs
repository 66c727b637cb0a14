//! A parsed metadata item: either a WildFly image or a feature pack.
use vstd::prelude::*;

use crate::feature_pack::{
    spec_container_name, spec_fp_full_name, spec_fp_short_name, spec_port_offset, FeaturePack,
    FeaturePackView,
};
use crate::text::{chars_of, decimal, push_all, push_decimal, string_of};
use crate::version::version_text;
use crate::wildfly_image::{
    spec_image_full_name, spec_image_short_name, WildFlyImage, WildFlyImageView,
};

verus! {

/// A parsed metadata item — either a WildFly container image or a Galleon feature pack.
#[derive(Clone, Debug, PartialEq, Eq)]
pub enum MetaItem {
    /// A WildFly container image.
    Image(WildFlyImage),
    /// A Galleon feature pack.
    FeaturePack(FeaturePack),
}

/// The mathematical value of a [`MetaItem`].
pub enum MetaItemView {
    Image(WildFlyImageView),
    FeaturePack(FeaturePackView),
}

impl View for MetaItem {
    type V = MetaItemView;

    open spec fn view(&self) -> MetaItemView {
        match self {
            MetaItem::Image(i) => MetaItemView::Image(i@),
            MetaItem::FeaturePack(f) => MetaItemView::FeaturePack(f@),
        }
    }
}

/// The port offset of an item: the identifier of an image, the computed offset of a
/// feature pack.
pub open spec fn item_port_offset(m: MetaItemView) -> int {
    match m {
        MetaItemView::Image(i) => i.identifier as int,
        MetaItemView::FeaturePack(f) => spec_port_offset(f),
    }
}

/// The port offset of an item fits in a `u16`.
pub open spec fn item_offset_fits(m: MetaItemView) -> bool {
    item_port_offset(m) <= u16::MAX
}

/// The short name of an item.
pub open spec fn spec_item_short_name(m: MetaItemView) -> Seq<char> {
    match m {
        MetaItemView::Image(i) => spec_image_short_name(i),
        MetaItemView::FeaturePack(f) => spec_fp_short_name(f),
    }
}

/// The full name of an item.
pub open spec fn spec_item_full_name(m: MetaItemView) -> Seq<char> {
    match m {
        MetaItemView::Image(i) => spec_image_full_name(i),
        MetaItemView::FeaturePack(f) => spec_fp_full_name(f),
    }
}

/// The container name of an item: the decimal identifier of an image.
pub open spec fn spec_item_container_name(m: MetaItemView) -> Seq<char> {
    match m {
        MetaItemView::Image(i) => decimal(i.identifier as nat),
        MetaItemView::FeaturePack(f) => spec_container_name(f),
    }
}

/// The expression that selects an item again: the short name of an image,
/// `shortcut:version` for a feature pack.
pub open spec fn spec_expression(m: MetaItemView) -> Seq<char> {
    match m {
        MetaItemView::Image(i) => spec_image_short_name(i),
        MetaItemView::FeaturePack(f) => f.shortcut + seq![':'] + version_text(f.version),
    }
}

impl MetaItem {
    /// A copy of this item.
    pub fn cloned(&self) -> (r: MetaItem)
        ensures
            r@ == self@,
    {
        match self {
            MetaItem::Image(i) => MetaItem::Image(i.cloned()),
            MetaItem::FeaturePack(f) => MetaItem::FeaturePack(f.cloned()),
        }
    }

    /// Returns a short human-readable name for this item (e.g. `"34.0"` or `"ai 0.9.0"`).
    pub fn short_name(&self) -> (r: String)
        ensures
            r@ == spec_item_short_name(self@),
    {
        match self {
            MetaItem::Image(i) => i.short_name(),
            MetaItem::FeaturePack(f) => f.short_name(),
        }
    }

    /// Returns a full branded name (e.g. `"WildFly 34.0"` or `"AI Feature Pack 0.9.0"`).
    pub fn full_name(&self) -> (r: String)
        ensures
            r@ == spec_item_full_name(self@),
    {
        match self {
            MetaItem::Image(i) => i.full_name(),
            MetaItem::FeaturePack(f) => f.full_name(),
        }
    }

    /// Returns the port offset used to assign unique ports to this item.
    pub fn port_offset(&self) -> (r: u16)
        requires
            item_offset_fits(self@),
        ensures
            r == item_port_offset(self@),
    {
        match self {
            MetaItem::Image(i) => i.identifier,
            MetaItem::FeaturePack(f) => f.port_offset(),
        }
    }

    /// Returns a unique container name (e.g. `"340"` or `"ai-0-9-0"`).
    pub fn container_name(&self) -> (r: String)
        ensures
            r@ == spec_item_container_name(self@),
    {
        match self {
            MetaItem::Image(i) => {
                let mut out: Vec<char> = Vec::new();
                push_decimal(&mut out, i.identifier as u64);
                assert(out@ =~= decimal(i.identifier as nat));
                string_of(&out)
            },
            MetaItem::FeaturePack(f) => f.container_name(),
        }
    }

    /// Returns `"wildfly"` for WildFly images or `"feature-pack"` for feature packs.
    pub fn kind(&self) -> (r: &'static str)
        ensures
            r@ == (if self is Image {
                "wildfly"@
            } else {
                "feature-pack"@
            }),
    {
        match self {
            MetaItem::Image(_) => "wildfly",
            MetaItem::FeaturePack(_) => "feature-pack",
        }
    }

    /// Returns a re-parseable expression (e.g. `"34.0"` or `"ai:0.9.0"`).
    pub fn expression(&self) -> (r: String)
        ensures
            r@ == spec_expression(self@),
    {
        match self {
            MetaItem::Image(i) => i.short_name(),
            MetaItem::FeaturePack(f) => {
                let mut out = chars_of(f.shortcut.as_str());
                out.push(':');
                push_all(&mut out, &f.version.text());
                string_of(&out)
            },
        }
    }
}

/// The port offsets of images and feature packs never meet: a feature pack's offset is at
/// least `10000`, above the identifier of every image up to WildFly 999.9.
pub proof fn lemma_port_offsets_disjoint(i: WildFlyImageView, f: FeaturePackView)
    requires
        i.identifier < 10000,
    ensures
        item_port_offset(MetaItemView::Image(i)) < 10000 <= item_port_offset(MetaItemView::FeaturePack(f)),
{
}

} // verus!
