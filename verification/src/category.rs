//! Expense categories: nine fixed kinds plus a free-text `Other` label.
//!
//! The textual form is the variant name, with `Other(label)` for a non-empty
//! label and bare `Other` for an empty one; parsing inverts that form.

use vstd::prelude::*;
use crate::text::str_eq;

verus! {

#[derive(Debug, Clone)]
pub enum Category {
    Food,
    Transport,
    Rent,
    Utilities,
    Entertainment,
    Shopping,
    Health,
    Education,
    Subscriptions,
    Other(String),
}

/// Structural equality; `Other` labels are compared by their characters.
pub open spec fn cat_eq(a: Category, b: Category) -> bool {
    match (a, b) {
        (Category::Food, Category::Food) => true,
        (Category::Transport, Category::Transport) => true,
        (Category::Rent, Category::Rent) => true,
        (Category::Utilities, Category::Utilities) => true,
        (Category::Entertainment, Category::Entertainment) => true,
        (Category::Shopping, Category::Shopping) => true,
        (Category::Health, Category::Health) => true,
        (Category::Education, Category::Education) => true,
        (Category::Subscriptions, Category::Subscriptions) => true,
        (Category::Other(x), Category::Other(y)) => x@ == y@,
        _ => false,
    }
}

impl PartialEq for Category {
    fn eq(&self, other: &Category) -> (r: bool) {
        match (self, other) {
            (Category::Food, Category::Food) => true,
            (Category::Transport, Category::Transport) => true,
            (Category::Rent, Category::Rent) => true,
            (Category::Utilities, Category::Utilities) => true,
            (Category::Entertainment, Category::Entertainment) => true,
            (Category::Shopping, Category::Shopping) => true,
            (Category::Health, Category::Health) => true,
            (Category::Education, Category::Education) => true,
            (Category::Subscriptions, Category::Subscriptions) => true,
            (Category::Other(x), Category::Other(y)) => str_eq(x.as_str(), y.as_str()),
            _ => false,
        }
    }
}

impl vstd::std_specs::cmp::PartialEqSpecImpl for Category {
    open spec fn obeys_eq_spec() -> bool {
        true
    }

    open spec fn eq_spec(&self, other: &Category) -> bool {
        cat_eq(*self, *other)
    }
}

/// The display text of a category.
pub open spec fn cat_name(c: Category) -> Seq<char> {
    match c {
        Category::Food => "Food"@,
        Category::Transport => "Transport"@,
        Category::Rent => "Rent"@,
        Category::Utilities => "Utilities"@,
        Category::Entertainment => "Entertainment"@,
        Category::Shopping => "Shopping"@,
        Category::Health => "Health"@,
        Category::Education => "Education"@,
        Category::Subscriptions => "Subscriptions"@,
        Category::Other(s) => if s@.len() == 0 {
            "Other"@
        } else {
            "Other("@ + s@ + ")"@
        },
    }
}

/// The label a free-form category text denotes: the inside of
/// `Other(label)`, the empty label for bare `Other`, or the text itself.
pub open spec fn spec_other_label(s: Seq<char>) -> Seq<char> {
    if s.len() >= 7 && s.subrange(0, 6) == "Other("@ && s.last() == ')' {
        s.subrange(6, s.len() - 1)
    } else if s == "Other"@ {
        Seq::<char>::empty()
    } else {
        s
    }
}

/// The category a text denotes when parsed.
pub open spec fn cat_of_text(r: Category, s: Seq<char>) -> bool {
    if s == "Food"@ {
        r is Food
    } else if s == "Transport"@ {
        r is Transport
    } else if s == "Rent"@ {
        r is Rent
    } else if s == "Utilities"@ {
        r is Utilities
    } else if s == "Entertainment"@ {
        r is Entertainment
    } else if s == "Shopping"@ {
        r is Shopping
    } else if s == "Health"@ {
        r is Health
    } else if s == "Education"@ {
        r is Education
    } else if s == "Subscriptions"@ {
        r is Subscriptions
    } else {
        r matches Category::Other(l) && l@ == spec_other_label(s)
    }
}

impl Category {
    /// A copy that compares equal to `self`.
    pub fn duplicate(&self) -> (r: Category)
        ensures
            r == *self,
    {
        match self {
            Category::Food => Category::Food,
            Category::Transport => Category::Transport,
            Category::Rent => Category::Rent,
            Category::Utilities => Category::Utilities,
            Category::Entertainment => Category::Entertainment,
            Category::Shopping => Category::Shopping,
            Category::Health => Category::Health,
            Category::Education => Category::Education,
            Category::Subscriptions => Category::Subscriptions,
            Category::Other(s) => Category::Other(s.clone()),
        }
    }

    /// The display text: the variant name, `Other(label)` when a non-empty
    /// label is present.
    pub fn name(&self) -> (r: String)
        ensures
            r@ == cat_name(*self),
    {
        match self {
            Category::Food => String::from_str("Food"),
            Category::Transport => String::from_str("Transport"),
            Category::Rent => String::from_str("Rent"),
            Category::Utilities => String::from_str("Utilities"),
            Category::Entertainment => String::from_str("Entertainment"),
            Category::Shopping => String::from_str("Shopping"),
            Category::Health => String::from_str("Health"),
            Category::Education => String::from_str("Education"),
            Category::Subscriptions => String::from_str("Subscriptions"),
            Category::Other(s) => {
                if s.as_str().unicode_len() == 0 {
                    String::from_str("Other")
                } else {
                    let mut out = String::from_str("Other(");
                    out.append(s.as_str());
                    out.append(")");
                    out
                }
            },
        }
    }

    /// The ten selectable category names, in selection order.
    pub fn all_display_names() -> (r: Vec<&'static str>)
        ensures
            r@.len() == 10,
            r@[0]@ == "Food"@,
            r@[1]@ == "Transport"@,
            r@[2]@ == "Rent"@,
            r@[3]@ == "Utilities"@,
            r@[4]@ == "Entertainment"@,
            r@[5]@ == "Shopping"@,
            r@[6]@ == "Health"@,
            r@[7]@ == "Education"@,
            r@[8]@ == "Subscriptions"@,
            r@[9]@ == "Other"@,
    {
        vec![
            "Food",
            "Transport",
            "Rent",
            "Utilities",
            "Entertainment",
            "Shopping",
            "Health",
            "Education",
            "Subscriptions",
            "Other",
        ]
    }

    /// The category at a selection index; out-of-range indices select
    /// `Other` with the given custom label.
    pub fn from_index(index: usize, custom: Option<String>) -> (r: Category)
        ensures
            index == 0 ==> r is Food,
            index == 1 ==> r is Transport,
            index == 2 ==> r is Rent,
            index == 3 ==> r is Utilities,
            index == 4 ==> r is Entertainment,
            index == 5 ==> r is Shopping,
            index == 6 ==> r is Health,
            index == 7 ==> r is Education,
            index == 8 ==> r is Subscriptions,
            index >= 9 ==> (r matches Category::Other(l) && l@ == (match custom {
                Some(c) => c@,
                None => Seq::<char>::empty(),
            })),
    {
        match index {
            0 => Category::Food,
            1 => Category::Transport,
            2 => Category::Rent,
            3 => Category::Utilities,
            4 => Category::Entertainment,
            5 => Category::Shopping,
            6 => Category::Health,
            7 => Category::Education,
            8 => Category::Subscriptions,
            _ => Category::Other(
                match custom {
                    Some(c) => c,
                    None => String::new(),
                },
            ),
        }
    }

    /// The selection index of this category.
    pub fn to_index(&self) -> (r: usize)
        ensures
            r == spec_cat_index(*self),
    {
        match self {
            Category::Food => 0,
            Category::Transport => 1,
            Category::Rent => 2,
            Category::Utilities => 3,
            Category::Entertainment => 4,
            Category::Shopping => 5,
            Category::Health => 6,
            Category::Education => 7,
            Category::Subscriptions => 8,
            Category::Other(_) => 9,
        }
    }

    /// Parse the textual form back into a category. Any text that is not a
    /// known name denotes an `Other` label.
    pub fn from_str_value(s: &str) -> (r: Category)
        ensures
            cat_of_text(r, s@),
    {
        if str_eq(s, "Food") {
            Category::Food
        } else if str_eq(s, "Transport") {
            Category::Transport
        } else if str_eq(s, "Rent") {
            Category::Rent
        } else if str_eq(s, "Utilities") {
            Category::Utilities
        } else if str_eq(s, "Entertainment") {
            Category::Entertainment
        } else if str_eq(s, "Shopping") {
            Category::Shopping
        } else if str_eq(s, "Health") {
            Category::Health
        } else if str_eq(s, "Education") {
            Category::Education
        } else if str_eq(s, "Subscriptions") {
            Category::Subscriptions
        } else {
            let n = s.unicode_len();
            let has_wrap = n >= 7 && {
                let prefix = s.substring_char(0, 6);
                str_eq(prefix, "Other(") && s.get_char(n - 1) == ')'
            };
            if has_wrap {
                let inner = s.substring_char(6, n - 1);
                proof {
                    assert(spec_other_label(s@) == s@.subrange(6, s@.len() - 1));
                }
                Category::Other(String::from_str(inner))
            } else if str_eq(s, "Other") {
                proof {
                    assert(spec_other_label(s@) =~= Seq::<char>::empty());
                }
                Category::Other(String::new())
            } else {
                proof {
                    assert(spec_other_label(s@) == s@);
                }
                Category::Other(String::from_str(s))
            }
        }
    }
}

/// The selection index of a category.
pub open spec fn spec_cat_index(c: Category) -> int {
    match c {
        Category::Food => 0,
        Category::Transport => 1,
        Category::Rent => 2,
        Category::Utilities => 3,
        Category::Entertainment => 4,
        Category::Shopping => 5,
        Category::Health => 6,
        Category::Education => 7,
        Category::Subscriptions => 8,
        Category::Other(_) => 9,
    }
}

/// The label behind an `Other`-prefixed text: the inside of a full
/// `Other(label)` wrap, or the empty label.
pub open spec fn spec_other_label_or_empty(s: Seq<char>) -> Seq<char> {
    if s.len() >= 7 && s.subrange(0, 6) == "Other("@ && s.last() == ')' {
        s.subrange(6, s.len() - 1)
    } else {
        Seq::<char>::empty()
    }
}

/// Look a category up by its display text: the nine fixed names, or any
/// text starting with `Other`; anything else is no category.
pub fn category_from_name(name: &str) -> (r: Option<Category>)
    ensures
        r is Some <==> (name@ == "Food"@ || name@ == "Transport"@ || name@ == "Rent"@ || name@
            == "Utilities"@ || name@ == "Entertainment"@ || name@ == "Shopping"@ || name@
            == "Health"@ || name@ == "Education"@ || name@ == "Subscriptions"@ || (name@.len() >= 5
            && name@.subrange(0, 5) == "Other"@)),
        r matches Some(c) ==> cat_from_name_text(c, name@),
{
    if str_eq(name, "Food") {
        Some(Category::Food)
    } else if str_eq(name, "Transport") {
        Some(Category::Transport)
    } else if str_eq(name, "Rent") {
        Some(Category::Rent)
    } else if str_eq(name, "Utilities") {
        Some(Category::Utilities)
    } else if str_eq(name, "Entertainment") {
        Some(Category::Entertainment)
    } else if str_eq(name, "Shopping") {
        Some(Category::Shopping)
    } else if str_eq(name, "Health") {
        Some(Category::Health)
    } else if str_eq(name, "Education") {
        Some(Category::Education)
    } else if str_eq(name, "Subscriptions") {
        Some(Category::Subscriptions)
    } else {
        let n = name.unicode_len();
        let has_prefix = n >= 5 && str_eq(name.substring_char(0, 5), "Other");
        if !has_prefix {
            return None;
        }
        let has_wrap = n >= 7 && {
            let prefix = name.substring_char(0, 6);
            str_eq(prefix, "Other(") && name.get_char(n - 1) == ')'
        };
        if has_wrap {
            let inner = name.substring_char(6, n - 1);
            proof {
                assert(spec_other_label_or_empty(name@) == name@.subrange(6, name@.len() - 1));
            }
            Some(Category::Other(String::from_str(inner)))
        } else {
            proof {
                assert(spec_other_label_or_empty(name@) =~= Seq::<char>::empty());
            }
            Some(Category::Other(String::new()))
        }
    }
}

/// The category a display text denotes when looked up by name.
pub open spec fn cat_from_name_text(r: Category, s: Seq<char>) -> bool {
    if s == "Food"@ {
        r is Food
    } else if s == "Transport"@ {
        r is Transport
    } else if s == "Rent"@ {
        r is Rent
    } else if s == "Utilities"@ {
        r is Utilities
    } else if s == "Entertainment"@ {
        r is Entertainment
    } else if s == "Shopping"@ {
        r is Shopping
    } else if s == "Health"@ {
        r is Health
    } else if s == "Education"@ {
        r is Education
    } else if s == "Subscriptions"@ {
        r is Subscriptions
    } else {
        r matches Category::Other(l) && l@ == spec_other_label_or_empty(s)
    }
}

/// Writing a category out and parsing the text back yields an equal
/// category, the empty and non-empty `Other` labels included.
pub proof fn lemma_category_round_trip(c: Category, r: Category)
    requires
        cat_of_text(r, cat_name(c)),
    ensures
        cat_eq(r, c),
{
    reveal_strlit("Food");
    reveal_strlit("Transport");
    reveal_strlit("Rent");
    reveal_strlit("Utilities");
    reveal_strlit("Entertainment");
    reveal_strlit("Shopping");
    reveal_strlit("Health");
    reveal_strlit("Education");
    reveal_strlit("Subscriptions");
    reveal_strlit("Other");
    reveal_strlit("Other(");
    reveal_strlit(")");
    // Lengths and first characters make the ten names pairwise distinct.
    assert("Food"@.len() == 4 && "Food"@[0] == 'F');
    assert("Transport"@.len() == 9 && "Transport"@[0] == 'T');
    assert("Rent"@.len() == 4 && "Rent"@[0] == 'R');
    assert("Utilities"@.len() == 9 && "Utilities"@[0] == 'U');
    assert("Entertainment"@.len() == 13 && "Entertainment"@[0] == 'E');
    assert("Shopping"@.len() == 8 && "Shopping"@[0] == 'S');
    assert("Health"@.len() == 6 && "Health"@[0] == 'H');
    assert("Education"@.len() == 9 && "Education"@[0] == 'E');
    assert("Education"@[1] == 'd' && "Entertainment"@[1] == 'n' && "Subscriptions"@[1] == 'u');
    assert("Subscriptions"@.len() == 13 && "Subscriptions"@[0] == 'S');
    assert("Other"@.len() == 5 && "Other"@[0] == 'O');
    assert("Other("@.len() == 6 && "Other("@[5] == '(');
    assert(")"@.len() == 1 && ")"@[0] == ')');
    match c {
        Category::Other(s) => {
            if s@.len() == 0 {
                assert(cat_name(c) == "Other"@);
                assert(spec_other_label("Other"@) =~= Seq::<char>::empty());
                assert(s@ =~= Seq::<char>::empty());
                assert("Other"@ != "Food"@ && "Other"@ != "Transport"@ && "Other"@ != "Rent"@
                    && "Other"@ != "Utilities"@ && "Other"@ != "Entertainment"@ && "Other"@
                    != "Shopping"@ && "Other"@ != "Health"@ && "Other"@ != "Education"@ && "Other"@
                    != "Subscriptions"@);
            } else {
                let t = "Other("@ + s@ + ")"@;
                assert(cat_name(c) == t);
                assert(t.len() == s@.len() + 7);
                assert(t.subrange(0, 6) =~= "Other("@);
                assert(t.last() == ')');
                assert(t != "Food"@ && t != "Transport"@ && t != "Rent"@ && t != "Utilities"@
                    && t != "Entertainment"@ && t != "Shopping"@ && t != "Health"@ && t
                    != "Education"@ && t != "Subscriptions"@) by {
                    assert(t[5] == '(');
                }
                assert(spec_other_label(t) =~= s@);
            }
        },
        _ => {
        },
    }
}

} // verus!
