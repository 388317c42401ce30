//! Seasons and season segments.

use vstd::prelude::*;

use crate::text::{
    all_ascii_digits, decimal, digit_char, digits_value, lemma_decimal_injective, lemma_decimal_value,
    lemma_digit_char_code, push_decimal, push_two_digits, two_digits,
};

verus! {

/// Start year of a season. `Season(1996)` represents "1996-97".
#[derive(Debug, Clone, Copy, PartialEq, Eq, PartialOrd, Ord, Hash)]
pub struct Season(pub u16);

/// The label of the season starting in `start`: the start year, a dash, and the
/// last two digits of the end year (`start + 1`), zero-padded.
pub open spec fn season_label(start: nat) -> Seq<char> {
    decimal(start) + seq!['-'] + two_digits((start + 1) % 100)
}

impl Season {
    /// The end year of the season (start year + 1).
    pub fn end_year(self) -> (year: u16)
        requires
            self.0 < u16::MAX,
        ensures
            year == self.0 + 1,
    {
        self.0 + 1
    }

    /// The season's display label, e.g. `"1996-97"` for `Season(1996)` and
    /// `"1999-00"` for `Season(1999)`. This label is the `season_id` used by the
    /// stored tables.
    pub fn to_string(&self) -> (label: String)
        requires
            self.0 < u16::MAX,
        ensures
            label@ == season_label(self.0 as nat),
            season_label_reads_as(label@, self.0 as nat),
    {
        proof {
            lemma_season_label_parts(self.0 as nat);
        }
        let mut label = String::new();
        push_decimal(&mut label, self.0 as u64);
        let dash = "-";
        proof {
            reveal_strlit("-");
        }
        vstd::string::StringExecFns::append(&mut label, dash);
        push_two_digits(&mut label, (self.end_year() % 100) as u64);
        assert(label@ =~= season_label(self.0 as nat));
        label
    }
}

/// `label` is the decimal start year `start` (ASCII digits, no leading zero),
/// a dash, and the two ASCII digits of the end year `start + 1` modulo 100.
pub open spec fn season_label_reads_as(label: Seq<char>, start: nat) -> bool {
    let n = label.len() as int;
    let year = label.subrange(0, n - 3);
    let end = (start + 1) % 100;
    &&& n >= 4
    &&& all_ascii_digits(year)
    &&& digits_value(year) == start
    &&& (year.len() > 1 ==> year[0] != '0')
    &&& label[n - 3] == '-'
    &&& label[n - 2] as int == '0' as int + end / 10
    &&& label[n - 1] as int == '0' as int + end % 10
}

/// A season's label reads as its start year, a dash and the last two digits of
/// its end year.
pub proof fn lemma_season_label_parts(start: nat)
    ensures
        season_label_reads_as(season_label(start), start),
{
    let label = season_label(start);
    let d = decimal(start);
    lemma_decimal_value(start);
    let end = (start + 1) % 100;
    lemma_digit_char_code(end / 10);
    lemma_digit_char_code(end % 10);
    assert(label.len() == d.len() + 3);
    assert(label.subrange(0, d.len() as int) =~= d);
    assert(label[d.len() as int] == '-');
    assert(label[d.len() as int + 1] == digit_char(end / 10));
    assert(label[d.len() as int + 2] == digit_char(end % 10));
    if d.len() > 1 {
        if start < 10 {
            assert(d.len() == 1);
        }
    }
}

/// Distinct seasons have distinct labels, so a label identifies its season.
pub proof fn lemma_season_label_injective(a: Season, b: Season)
    requires
        season_label(a.0 as nat) == season_label(b.0 as nat),
    ensures
        a == b,
{
    let la = season_label(a.0 as nat);
    let da = decimal(a.0 as nat);
    let db = decimal(b.0 as nat);
    assert(la.len() == da.len() + 3);
    assert(season_label(b.0 as nat).len() == db.len() + 3);
    assert(la.subrange(0, da.len() as int) =~= da);
    assert(season_label(b.0 as nat).subrange(0, db.len() as int) =~= db);
    lemma_decimal_injective(a.0 as nat, b.0 as nat);
}

/// Identifies the type of games in a season segment.
#[derive(Debug, Clone, Copy, PartialEq, Eq, Hash, Structural)]
pub enum SeasonType {
    Regular,
    Playoffs,
    /// NBA play-in tournament (introduced 2021).
    PlayIn,
    AllStar,
    Preseason,
}

} // verus!
