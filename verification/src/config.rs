//! Category rules: each maps keywords of a transaction's description to a
//! category title, with a priority.

use vstd::prelude::*;

verus! {

/// A category rule.
pub struct Category {
    title: String,
    keywords: Vec<String>,
    priority: u32,
}

/// The rules of the configuration, in order.
pub struct Config {
    categories: Vec<Category>,
}

/// The texts of the keywords.
pub open spec fn keyword_texts(keywords: Seq<String>) -> Seq<Seq<char>> {
    keywords.map_values(|k: String| k@)
}

impl View for Category {
    type V = (Seq<char>, Seq<Seq<char>>, u32);

    closed spec fn view(&self) -> (Seq<char>, Seq<Seq<char>>, u32) {
        (self.title@, keyword_texts(self.keywords@), self.priority)
    }
}

/// The rules as their views, in order.
pub open spec fn category_views(categories: Seq<Category>) -> Seq<(Seq<char>, Seq<Seq<char>>, u32)> {
    categories.map_values(|c: Category| c@)
}

impl View for Config {
    type V = Seq<(Seq<char>, Seq<Seq<char>>, u32)>;

    closed spec fn view(&self) -> Seq<(Seq<char>, Seq<Seq<char>>, u32)> {
        category_views(self.categories@)
    }
}

impl Category {
    pub fn new(title: String, keywords: Vec<String>, priority: u32) -> (r: Category)
        ensures
            r@ == (title@, keyword_texts(keywords@), priority),
    {
        Category { title, keywords, priority }
    }

    pub fn title(&self) -> (r: &str)
        ensures
            r@ == self@.0,
    {
        self.title.as_str()
    }

    pub fn keywords(&self) -> (r: &Vec<String>)
        ensures
            keyword_texts(r@) == self@.1,
    {
        &self.keywords
    }

    pub fn priority(&self) -> (r: u32)
        ensures
            r == self@.2,
    {
        self.priority
    }
}

impl Config {
    pub fn from_categories(categories: Vec<Category>) -> (r: Config)
        ensures
            r@ == category_views(categories@),
    {
        Config { categories }
    }

    pub fn categories(&self) -> (r: &Vec<Category>)
        ensures
            category_views(r@) == self@,
    {
        &self.categories
    }
}

} // verus!
