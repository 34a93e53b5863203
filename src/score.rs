use vstd::prelude::*;

verus! {

/// Points awarded for clearing `rows` rows with one lock.
pub open spec fn award(rows: u32) -> nat {
    if rows == 1 {
        40
    } else if rows == 2 {
        100
    } else if rows == 3 {
        300
    } else if rows == 4 {
        1200
    } else {
        0
    }
}

/// Running score total. The total saturates at `u32::MAX` instead of wrapping.
#[derive(Debug, Default, Clone, Copy)]
pub struct Score(pub u32);

/// The total after adding the award for `rows` cleared rows to `total`.
pub open spec fn total_after(total: u32, rows: u32) -> u32 {
    if total + award(rows) > u32::MAX {
        u32::MAX
    } else {
        (total + award(rows)) as u32
    }
}

impl Score {
    pub fn get(self) -> (r: u32)
        ensures
            r == self.0,
    {
        self.0
    }

    pub fn reset(&mut self)
        ensures
            final(self).0 == 0,
    {
        self.0 = 0;
    }

    /// Adds the award for `rows` cleared rows and returns the new total.
    pub fn add_cleared_rows(&mut self, rows: u32) -> (r: u32)
        ensures
            r == final(self).0,
            final(self).0 == total_after(old(self).0, rows),
            old(self).0 <= final(self).0,
    {
        let points: u32 = match rows {
            1 => 40,
            2 => 100,
            3 => 300,
            4 => 1200,
            _ => 0,
        };
        self.0 = self.0.saturating_add(points);
        self.0
    }
}

/// Each lock awards exactly the amount of the fixed table, and the total never
/// decreases: it grows by that amount, or stops at `u32::MAX`.
pub proof fn lemma_award_table(total: u32, rows: u32)
    ensures
        award(0) == 0,
        award(1) == 40,
        award(2) == 100,
        award(3) == 300,
        award(4) == 1200,
        rows > 4 ==> award(rows) == 0,
        total <= total_after(total, rows),
        total as int + award(rows) <= u32::MAX ==> total_after(total, rows) == total + award(rows),
{
}

} // verus!
