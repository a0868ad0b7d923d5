use vstd::prelude::*;

verus! {

/// A value that is either a concrete integer or a wildcard that matches any value.
#[derive(Clone, Copy, Debug)]
pub enum Content {
    Int(i32),
    Any,
}

/// Value equality: two concrete values are equal when their integers are; a
/// wildcard is equal to everything, itself included.
pub open spec fn same(a: Content, b: Content) -> bool {
    match (a, b) {
        (Content::Int(x), Content::Int(y)) => x == y,
        _ => true,
    }
}

/// Strict order: only two concrete values are ever ordered.
pub open spec fn below(a: Content, b: Content) -> bool {
    match (a, b) {
        (Content::Int(x), Content::Int(y)) => x < y,
        _ => false,
    }
}

/// The three-way comparison: a wildcard compares equal to everything.
pub open spec fn compare(a: Content, b: Content) -> std::cmp::Ordering {
    match (a, b) {
        (Content::Int(x), Content::Int(y)) => if x < y {
            std::cmp::Ordering::Less
        } else if x > y {
            std::cmp::Ordering::Greater
        } else {
            std::cmp::Ordering::Equal
        },
        _ => std::cmp::Ordering::Equal,
    }
}

impl Content {
    /// `same` in executable form.
    pub fn same_as(&self, other: &Content) -> (r: bool)
        ensures
            r == same(*self, *other),
    {
        match (self, other) {
            (Content::Int(a), Content::Int(b)) => *a == *b,
            _ => true,
        }
    }

    /// `below` in executable form.
    pub fn is_below(&self, other: &Content) -> (r: bool)
        ensures
            r == below(*self, *other),
    {
        match (self, other) {
            (Content::Int(a), Content::Int(b)) => *a < *b,
            _ => false,
        }
    }

    /// Whether this is the wildcard.
    pub fn is_any(&self) -> (r: bool)
        ensures
            r == (*self is Any),
    {
        match self {
            Content::Any => true,
            Content::Int(_) => false,
        }
    }

    /// The integer of a concrete value; a wildcard has none.
    pub fn to_int(self) -> (r: i32)
        requires
            self is Int,
        ensures
            self == Content::Int(r),
    {
        match self {
            Content::Int(n) => n,
            Content::Any => 0,
        }
    }
}

impl PartialEq for Content {
    fn eq(&self, other: &Content) -> (r: bool) {
        self.same_as(other)
    }
}

impl vstd::std_specs::cmp::PartialEqSpecImpl for Content {
    open spec fn obeys_eq_spec() -> bool {
        true
    }

    open spec fn eq_spec(&self, other: &Content) -> bool {
        same(*self, *other)
    }
}

impl PartialOrd for Content {
    fn partial_cmp(&self, other: &Content) -> (r: Option<std::cmp::Ordering>) {
        match (self, other) {
            (Content::Int(a), Content::Int(b)) => if *a < *b {
                Some(std::cmp::Ordering::Less)
            } else if *a > *b {
                Some(std::cmp::Ordering::Greater)
            } else {
                Some(std::cmp::Ordering::Equal)
            },
            _ => Some(std::cmp::Ordering::Equal),
        }
    }

    fn lt(&self, other: &Content) -> (r: bool) {
        self.is_below(other)
    }

    fn gt(&self, other: &Content) -> (r: bool) {
        other.is_below(self)
    }
}

impl vstd::std_specs::cmp::PartialOrdSpecImpl for Content {
    open spec fn obeys_partial_cmp_spec() -> bool {
        true
    }

    open spec fn partial_cmp_spec(&self, other: &Content) -> Option<std::cmp::Ordering> {
        Some(compare(*self, *other))
    }
}

impl From<i32> for Content {
    fn from(value: i32) -> (r: Content) {
        Content::Int(value)
    }
}

impl vstd::std_specs::convert::FromSpecImpl<i32> for Content {
    open spec fn obeys_from_spec() -> bool {
        true
    }

    open spec fn from_spec(value: i32) -> Content {
        Content::Int(value)
    }
}

} // verus!
