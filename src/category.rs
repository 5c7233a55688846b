//! The closed set of concerns that rules are grouped by.

use vstd::prelude::*;

verus! {

/// What a rule polices; rules are grouped by it for presentation and in
/// the configuration file.
#[derive(Debug, Clone, Copy, PartialEq, Eq, Hash, PartialOrd, Ord, Structural)]
pub enum Category {
    Yaml,
    Heading,
    Content,
    Spacing,
    Other,
}

/// All categories, in their order.
pub open spec fn all_categories() -> Seq<Category> {
    seq![Category::Yaml, Category::Heading, Category::Content, Category::Spacing, Category::Other]
}

impl Category {
    /// The position of the category in the order `Yaml < Heading < Content < Spacing < Other`.
    pub open spec fn rank(self) -> nat {
        match self {
            Category::Yaml => 0,
            Category::Heading => 1,
            Category::Content => 2,
            Category::Spacing => 3,
            Category::Other => 4,
        }
    }

    /// The key of the category in the configuration file.
    pub open spec fn key_spec(self) -> Seq<char> {
        match self {
            Category::Yaml => "yaml"@,
            Category::Heading => "heading"@,
            Category::Content => "content"@,
            Category::Spacing => "spacing"@,
            Category::Other => "other"@,
        }
    }

    /// The name of the category as it is shown to people.
    pub open spec fn title_spec(self) -> Seq<char> {
        match self {
            Category::Yaml => "Yaml"@,
            Category::Heading => "Heading"@,
            Category::Content => "Content"@,
            Category::Spacing => "Spacing"@,
            Category::Other => "Other"@,
        }
    }

    /// The categories in their order.
    pub fn all() -> (r: Vec<Category>)
        ensures
            r@ == all_categories(),
    {
        let r = vec![
            Category::Yaml,
            Category::Heading,
            Category::Content,
            Category::Spacing,
            Category::Other,
        ];
        assert(r@ =~= all_categories());
        r
    }

    /// The position of the category in the order of categories.
    pub fn index(&self) -> (r: usize)
        ensures
            r == self.rank(),
            all_categories()[r as int] == *self,
    {
        match self {
            Category::Yaml => 0,
            Category::Heading => 1,
            Category::Content => 2,
            Category::Spacing => 3,
            Category::Other => 4,
        }
    }

    /// The lower-case key that names the category in the configuration file.
    pub fn key(&self) -> (r: &'static str)
        ensures
            r@ == self.key_spec(),
    {
        match self {
            Category::Yaml => "yaml",
            Category::Heading => "heading",
            Category::Content => "content",
            Category::Spacing => "spacing",
            Category::Other => "other",
        }
    }

    /// The capitalised name of the category.
    pub fn title(&self) -> (r: &'static str)
        ensures
            r@ == self.title_spec(),
    {
        match self {
            Category::Yaml => "Yaml",
            Category::Heading => "Heading",
            Category::Content => "Content",
            Category::Spacing => "Spacing",
            Category::Other => "Other",
        }
    }
}

} // verus!
