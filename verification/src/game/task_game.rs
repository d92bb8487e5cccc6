//! Experience and tier of a task, and the colour of a rating.

use vstd::prelude::*;

verus! {

/// Game values of a task.
#[derive(Debug, Clone)]
pub struct TaskGame {
    pub default_min_value: usize,
    xp: isize,
    tier: isize,
    pub skills: Vec<String>,
    pub is_reachable: bool,
}

/// The colour key of a rating: `c` for none, `r` below the minimum, `y`
/// below 10, `g` at 10, `w` above.
pub open spec fn rate_color_spec(value: int, min_value: int) -> char {
    if value == 0 {
        'c'
    } else if value < min_value {
        'r'
    } else if value < 10 {
        'y'
    } else if value == 10 {
        'g'
    } else {
        'w'
    }
}

/// The abstract value of a [`TaskGame`].
pub struct TaskGameView {
    pub default_min_value: usize,
    pub xp: isize,
    pub tier: isize,
    pub skills: Seq<String>,
    pub is_reachable: bool,
}

impl View for TaskGame {
    type V = TaskGameView;

    closed spec fn view(&self) -> TaskGameView {
        TaskGameView {
            default_min_value: self.default_min_value,
            xp: self.xp,
            tier: self.tier,
            skills: self.skills@,
            is_reachable: self.is_reachable,
        }
    }
}

impl TaskGame {
    /// Minimum 5, experience 1, tier 1, no skills, not reachable.
    pub fn new() -> (r: Self)
        ensures
            r@.default_min_value == 5,
            r@.xp == 1,
            r@.tier == 1,
            r@.skills.len() == 0,
            !r@.is_reachable,
    {
        TaskGame { default_min_value: 5, xp: 1, tier: 1, skills: Vec::new(), is_reachable: false }
    }

    /// The colour key of a rating, against `min_value` or the default minimum.
    pub fn get_rate_color(&self, value: usize, min_value: Option<usize>) -> (r: char)
        ensures
            r == rate_color_spec(
                value as int,
                match min_value {
                    Some(m) => m as int,
                    None => self@.default_min_value as int,
                },
            ),
    {
        let min_value: usize = match min_value {
            Some(m) => m,
            None => self.default_min_value,
        };
        if value == 0 {
            return 'c';
        }
        if value < min_value {
            return 'r';
        }
        if value < 10 {
            return 'y';
        }
        if value == 10 {
            return 'g';
        }
        'w'
    }

    /// The experience, 1 when it is 0.
    pub fn xp(&self) -> (r: isize)
        ensures
            r == if self@.xp == 0 {
                1
            } else {
                self@.xp
            },
    {
        if self.xp == 0 {
            return 1;
        }
        self.xp
    }

    /// Sets the experience; a negative value becomes 1.
    pub fn set_xp(&mut self, value: isize)
        ensures
            final(self)@ == (TaskGameView {
                xp: if value < 0 {
                    1
                } else {
                    value
                },
                ..old(self)@
            }),
    {
        let mut value = value;
        if value < 0 {
            value = 1;
        }
        self.xp = value;
    }

    /// The tier, 1 when it is 0.
    pub fn tier(&self) -> (r: isize)
        ensures
            r == if self@.tier == 0 {
                1
            } else {
                self@.tier
            },
    {
        if self.tier == 0 {
            return 1;
        }
        self.tier
    }

    /// Sets the tier: a negative value becomes 1, a value above 4 becomes 4.
    pub fn set_tier(&mut self, value: isize)
        ensures
            final(self)@ == (TaskGameView {
                tier: if value < 0 {
                    1
                } else if value > 4 {
                    4
                } else {
                    value
                },
                ..old(self)@
            }),
    {
        let mut value = value;
        if value < 0 {
            value = 1;
        }
        if value > 4 {
            value = 4;
        }
        self.tier = value;
    }
}

} // verus!
