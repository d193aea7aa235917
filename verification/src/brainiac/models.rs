use vstd::prelude::*;

verus! {

/// How well an item was recalled.
#[derive(Debug, Clone, Copy, PartialEq, Eq, Structural)]
pub enum Rating {
    Again,
    Hard,
    Good,
    Easy,
}

/// The number a rating is known by: 1 again, 2 hard, 3 good, 4 easy.
pub open spec fn rating_code(r: Rating) -> u8 {
    match r {
        Rating::Again => 1,
        Rating::Hard => 2,
        Rating::Good => 3,
        Rating::Easy => 4,
    }
}

impl Rating {
    /// The number this rating is known by.
    pub fn as_u8(&self) -> (v: u8)
        ensures
            v == rating_code(*self),
    {
        match self {
            Rating::Again => 1,
            Rating::Hard => 2,
            Rating::Good => 3,
            Rating::Easy => 4,
        }
    }
}

/// A tag on a category.
#[derive(Debug)]
pub struct CategoryTag {
    pub name: String,
}

/// A request to attach a tag to a category.
#[derive(Debug)]
pub struct CategoryTagLink {
    pub category_id: i64,
    pub tag_name: String,
}

/// The question side of an item to practise.
#[derive(Debug)]
pub struct PracticeItem {
    pub id: i64,
    pub front: String,
}

/// The answer side of an item.
#[derive(Debug)]
pub struct PracticeItemAnswer {
    pub id: i64,
    pub back: String,
}

/// New text for an item's sides; `None` leaves a side unchanged.
#[derive(Debug)]
pub struct UpdateItem {
    pub front: Option<String>,
    pub back: Option<String>,
}

impl UpdateItem {
    /// Whether the update changes nothing.
    pub fn is_empty(&self) -> (b: bool)
        ensures
            b == (self.front is None && self.back is None),
    {
        self.front.is_none() && self.back.is_none()
    }
}

/// Which items to practise and how many.
#[derive(Debug)]
pub struct PracticeItemsFilters {
    pub limit: u8,
    pub category_ids: Option<Vec<i64>>,
    pub tag_names: Option<Vec<String>>,
}

} // verus!
