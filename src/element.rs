use vstd::prelude::*;

verus! {

/// The closed set of chemical categories an element can belong to.
#[derive(Clone, Copy, Debug, PartialEq, Eq, Structural)]
pub enum ElementCategory {
    AlkaliMetal,
    AlkalineEarthMetal,
    Lanthanide,
    Actinide,
    TransitionMetal,
    PostTransitionMetal,
    Metalloid,
    Nonmetal,
    Halogen,
    NobleGas,
    Unknown,
}

/// One chemical element as the table shows it.
#[derive(Debug)]
pub struct Element {
    /// Atomic number.
    pub number: u8,
    /// Chemical symbol.
    pub symbol: String,
    /// Full name.
    pub name: String,
    /// Atomic mass, as the decimal text of the dataset.
    pub mass: String,
    /// Chemical category.
    pub category: ElementCategory,
    /// Position in the table, as (row, column).
    pub position: (u8, u8),
    /// Short description.
    pub description: String,
}

impl Clone for Element {
    fn clone(&self) -> (r: Self)
        ensures
            r == *self,
    {
        Element {
            number: self.number,
            symbol: self.symbol.clone(),
            name: self.name.clone(),
            mass: self.mass.clone(),
            category: self.category,
            position: self.position,
            description: self.description.clone(),
        }
    }
}

impl Element {
    /// The display colour of this element, given by its category.
    pub fn color(&self) -> (r: (u8, u8, u8))
        ensures
            r == category_rgb(self.category),
    {
        category_color(self.category)
    }
}

/// The display colour (red, green, blue) of each category.
pub open spec fn category_rgb(category: ElementCategory) -> (u8, u8, u8) {
    match category {
        ElementCategory::AlkaliMetal => (255, 102, 102),
        ElementCategory::AlkalineEarthMetal => (255, 171, 102),
        ElementCategory::Lanthanide => (187, 153, 255),
        ElementCategory::Actinide => (204, 153, 255),
        ElementCategory::TransitionMetal => (255, 255, 102),
        ElementCategory::PostTransitionMetal => (153, 204, 255),
        ElementCategory::Metalloid => (102, 255, 178),
        ElementCategory::Nonmetal => (102, 255, 102),
        ElementCategory::Halogen => (102, 255, 255),
        ElementCategory::NobleGas => (204, 153, 204),
        ElementCategory::Unknown => (180, 180, 180),
    }
}

/// The display colour of a category.
pub fn category_color(category: ElementCategory) -> (r: (u8, u8, u8))
    ensures
        r == category_rgb(category),
{
    match category {
        ElementCategory::AlkaliMetal => (255, 102, 102),
        ElementCategory::AlkalineEarthMetal => (255, 171, 102),
        ElementCategory::Lanthanide => (187, 153, 255),
        ElementCategory::Actinide => (204, 153, 255),
        ElementCategory::TransitionMetal => (255, 255, 102),
        ElementCategory::PostTransitionMetal => (153, 204, 255),
        ElementCategory::Metalloid => (102, 255, 178),
        ElementCategory::Nonmetal => (102, 255, 102),
        ElementCategory::Halogen => (102, 255, 255),
        ElementCategory::NobleGas => (204, 153, 204),
        ElementCategory::Unknown => (180, 180, 180),
    }
}

/// No two categories share a colour, so every category is told apart on screen.
pub proof fn lemma_category_colors_distinct(a: ElementCategory, b: ElementCategory)
    requires
        a != b,
    ensures
        category_rgb(a) != category_rgb(b),
{
}

} // verus!
