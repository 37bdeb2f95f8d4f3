//! repeat rules: the forms `--repeat` accepts and the end conditions of `--times` and `--until`

use crate::calendar::{date_exists, valid_ymd};
use crate::common::{chars_of, string_of, trim_chars, trim_spec};
use crate::text::{
    eq_ignore_ascii_case, lowercase_spec, parse_i32, parse_i32_spec, parse_u32, parse_u32_spec,
    split, split_once, split_once_spec, split_spec,
};
use crate::wire::FrequencyUnit;

pub mod occurrence;
pub mod wire_rule;
pub mod template;
use vstd::prelude::*;

verus! {

/// A repeat rule as typed on the command line: `daily`, `weekly:mon,thu`,
/// `monthly:15`, `monthly:last`, `yearly:12-31`, `after:2w`, with `/N` on the
/// fixed cadences for every N units.
#[derive(Debug, Clone, PartialEq, Eq)]
pub struct RepeatSpec {
    pub cadence: Cadence,
    pub every: i32,
}

#[derive(Debug, Clone, PartialEq, Eq)]
pub enum Cadence {
    Daily,
    /// weekdays counted from Sunday as 0, empty for the first day's weekday
    Weekly(Vec<u32>),
    /// 1 to 31, -1 for the last day, None for the first day's day
    Monthly(Option<i32>),
    /// month and day, None for the first day's month and day
    Yearly(Option<(u32, u32)>),
    AfterCompletion(FrequencyUnit),
}

/// a cadence with its weekdays as a sequence
pub enum CadenceView {
    Daily,
    Weekly(Seq<u32>),
    Monthly(Option<i32>),
    Yearly(Option<(u32, u32)>),
    AfterCompletion(FrequencyUnit),
}

impl View for Cadence {
    type V = CadenceView;

    open spec fn view(&self) -> CadenceView {
        match self {
            Cadence::Daily => CadenceView::Daily,
            Cadence::Weekly(days) => CadenceView::Weekly(days@),
            Cadence::Monthly(day) => CadenceView::Monthly(*day),
            Cadence::Yearly(date) => CadenceView::Yearly(*date),
            Cadence::AfterCompletion(unit) => CadenceView::AfterCompletion(*unit),
        }
    }
}

impl View for RepeatSpec {
    type V = (CadenceView, i32);

    open spec fn view(&self) -> (CadenceView, i32) {
        (self.cadence@, self.every)
    }
}

/// the weekday a name stands for, its three letters in any ASCII case, blanks around it ignored
pub open spec fn weekday_of_name(name: Seq<char>) -> Option<u32> {
    let key = lowercase_spec(trim_spec(name));
    if key == lowercase_spec("sun"@) {
        Some(0)
    } else if key == lowercase_spec("mon"@) {
        Some(1)
    } else if key == lowercase_spec("tue"@) {
        Some(2)
    } else if key == lowercase_spec("wed"@) {
        Some(3)
    } else if key == lowercase_spec("thu"@) {
        Some(4)
    } else if key == lowercase_spec("fri"@) {
        Some(5)
    } else if key == lowercase_spec("sat"@) {
        Some(6)
    } else {
        None
    }
}

/// the first of the first `n` names that is no weekday
pub open spec fn first_bad_weekday(names: Seq<Seq<char>>, n: int) -> Option<int>
    decreases n,
{
    if n <= 0 {
        None
    } else {
        match first_bad_weekday(names, n - 1) {
            Some(k) => Some(k),
            None => if weekday_of_name(names[n - 1]) is None {
                Some(n - 1)
            } else {
                None
            },
        }
    }
}

/// one of the names stands for the weekday
pub open spec fn names_weekday(names: Seq<Seq<char>>, d: u32) -> bool {
    exists|k: int| 0 <= k < names.len() && weekday_of_name(#[trigger] names[k]) == Some(d)
}

/// the weekdays the names stand for, in order from Sunday, each once
pub open spec fn weekday_set(names: Seq<Seq<char>>) -> Seq<u32> {
    Seq::new(7, |i: int| i as u32).filter(|d: u32| names_weekday(names, d))
}

/// the weekdays of a comma separated list, or the message for its first name that is no weekday
pub open spec fn weekdays_spec(list: Seq<char>) -> Result<Seq<u32>, Seq<char>> {
    let names = split_spec(list, ',');
    match first_bad_weekday(names, names.len() as int) {
        Some(k) => Err(
            "Invalid weekday "@ + names[k] + ": expected sun, mon, tue, wed, thu, fri or sat"@,
        ),
        None => Ok(weekday_set(names)),
    }
}

/// the day of the month a selector names, -1 for `last`
pub open spec fn month_day_spec(day: Seq<char>) -> Result<i32, Seq<char>> {
    if lowercase_spec(day) == lowercase_spec("last"@) {
        Ok(-1i32)
    } else {
        match parse_i32_spec(day) {
            Some(v) if 1 <= v <= 31 => Ok(v),
            _ => Err("Invalid day of month "@ + day + ": expected 1 to 31 or last"@),
        }
    }
}

/// the month and day of an `MM-DD` selector, a day that exists in a leap year
pub open spec fn month_and_day_spec(date: Seq<char>) -> Result<(u32, u32), Seq<char>> {
    let invalid = "Invalid yearly date "@ + date + ": expected MM-DD"@;
    match split_once_spec(date, '-') {
        Some((month, day)) => match (parse_u32_spec(month), parse_u32_spec(day)) {
            (Some(m), Some(d)) => if valid_ymd(2024, m as int, d as int) {
                Ok((m, d))
            } else {
                Err(invalid)
            },
            _ => Err(invalid),
        },
        None => Err(invalid),
    }
}

/// the text before the unit letter of an interval
pub open spec fn interval_amount(interval: Seq<char>) -> Seq<char> {
    if interval.len() == 0 {
        interval
    } else {
        interval.drop_last()
    }
}

/// the unit letter of an interval
pub open spec fn interval_unit(interval: Seq<char>) -> Seq<char> {
    if interval.len() == 0 {
        interval
    } else {
        seq![interval.last()]
    }
}

/// the amount and unit of an interval such as `2w`
pub open spec fn interval_spec(interval: Seq<char>) -> Result<(i32, FrequencyUnit), Seq<char>> {
    let invalid = "Invalid interval "@ + interval
        + ": expected a number and d, w, m or y, such as 2w"@;
    match parse_i32_spec(interval_amount(interval)) {
        Some(amount) if amount >= 1 => {
            let unit = interval_unit(interval);
            if unit == "d"@ {
                Ok((amount, FrequencyUnit::Daily))
            } else if unit == "w"@ {
                Ok((amount, FrequencyUnit::Weekly))
            } else if unit == "m"@ {
                Ok((amount, FrequencyUnit::Monthly))
            } else if unit == "y"@ {
                Ok((amount, FrequencyUnit::Yearly))
            } else {
                Err(invalid)
            }
        },
        _ => Err(invalid),
    }
}

/// the interval ends in a character of one byte, the only place it can be split
pub open spec fn interval_splits(interval: Seq<char>) -> bool {
    interval.len() == 0 || (interval.last() as u32) < 128
}

/// the text before the first `:`
pub open spec fn spec_head(spec: Seq<char>) -> Seq<char> {
    match split_once_spec(spec, ':') {
        Some((head, _)) => head,
        None => spec,
    }
}

/// the text after the first `:`
pub open spec fn spec_selector(spec: Seq<char>) -> Option<Seq<char>> {
    match split_once_spec(spec, ':') {
        Some((_, selector)) => Some(selector),
        None => None,
    }
}

/// the unit word before any `/`
pub open spec fn spec_unit(spec: Seq<char>) -> Seq<char> {
    match split_once_spec(spec_head(spec), '/') {
        Some((unit, _)) => unit,
        None => spec_head(spec),
    }
}

/// the count after `/`, 1 without one, None when it is no positive number
pub open spec fn spec_every(spec: Seq<char>) -> Option<i32> {
    match split_once_spec(spec_head(spec), '/') {
        Some((_, every)) => match parse_i32_spec(every) {
            Some(n) if n >= 1 => Some(n),
            _ => None,
        },
        None => Some(1),
    }
}

/// the unit word names the cadence
pub open spec fn unit_is(spec: Seq<char>, word: Seq<char>) -> bool {
    lowercase_spec(spec_unit(spec)) == lowercase_spec(word)
}

/// an `after` rule whose interval ends in a character of more than one byte, which cannot be split where the unit letter should start
pub open spec fn repeat_spec_splits(spec: Seq<char>) -> bool {
    !(spec_every(spec) == Some(1i32) && unit_is(spec, "after"@) && spec_selector(spec) is Some
        && !interval_splits(spec_selector(spec)->0))
}

/// the repeat rule a `--repeat` text names, or why it names none
pub open spec fn repeat_spec_of(spec: Seq<char>) -> Result<(CadenceView, i32), Seq<char>> {
    match spec_every(spec) {
        None => Err("Invalid --repeat "@ + spec + ": expected a positive number after /"@),
        Some(every) => {
            let selector = spec_selector(spec);
            if unit_is(spec, "daily"@) && selector is None {
                Ok((CadenceView::Daily, every))
            } else if unit_is(spec, "weekly"@) {
                match selector {
                    None => Ok((CadenceView::Weekly(seq![]), every)),
                    Some(list) => match weekdays_spec(list) {
                        Ok(days) => Ok((CadenceView::Weekly(days), every)),
                        Err(message) => Err(message),
                    },
                }
            } else if unit_is(spec, "monthly"@) {
                match selector {
                    None => Ok((CadenceView::Monthly(None), every)),
                    Some(day) => match month_day_spec(day) {
                        Ok(d) => Ok((CadenceView::Monthly(Some(d)), every)),
                        Err(message) => Err(message),
                    },
                }
            } else if unit_is(spec, "yearly"@) {
                match selector {
                    None => Ok((CadenceView::Yearly(None), every)),
                    Some(date) => match month_and_day_spec(date) {
                        Ok(md) => Ok((CadenceView::Yearly(Some(md)), every)),
                        Err(message) => Err(message),
                    },
                }
            } else if unit_is(spec, "after"@) && every == 1 {
                match selector {
                    None => Err(
                        "Invalid --repeat "@ + spec
                            + ": after needs an interval such as after:2w"@,
                    ),
                    Some(interval) => match interval_spec(interval) {
                        Ok((amount, unit)) => Ok((CadenceView::AfterCompletion(unit), amount)),
                        Err(message) => Err(message),
                    },
                }
            } else {
                Err(
                    "Invalid --repeat "@ + spec
                        + ": expected daily, weekly, monthly, yearly or after"@,
                )
            }
        },
    }
}

/// a message made of a prefix, a text and a suffix
fn framed(prefix: &str, text: &Vec<char>, suffix: &str) -> (message: String)
    ensures
        message@ == prefix@ + text@ + suffix@,
{
    let mut message = String::from_str(prefix);
    let middle = string_of(text);
    message.append(middle.as_str());
    message.append(suffix);
    message
}

/// the weekday a name stands for
fn weekday_of(name: &Vec<char>) -> (day: Option<u32>)
    ensures
        day == weekday_of_name(name@),
{
    let key = trim_chars(name);
    if eq_ignore_ascii_case(&key, "sun") {
        Some(0)
    } else if eq_ignore_ascii_case(&key, "mon") {
        Some(1)
    } else if eq_ignore_ascii_case(&key, "tue") {
        Some(2)
    } else if eq_ignore_ascii_case(&key, "wed") {
        Some(3)
    } else if eq_ignore_ascii_case(&key, "thu") {
        Some(4)
    } else if eq_ignore_ascii_case(&key, "fri") {
        Some(5)
    } else if eq_ignore_ascii_case(&key, "sat") {
        Some(6)
    } else {
        None
    }
}

/// the weekdays of a comma separated list, sorted from Sunday, each once
pub fn parse_weekdays(list: &Vec<char>) -> (days: Result<Vec<u32>, String>)
    ensures
        match days {
            Ok(days) => weekdays_spec(list@) == Ok::<Seq<u32>, Seq<char>>(days@),
            Err(message) => weekdays_spec(list@) == Err::<Seq<u32>, Seq<char>>(message@),
        },
{
    let names = split(list, ',');
    let ghost named = names@.map_values(|p: Vec<char>| p@);
    let mut present = [false;7];
    let mut k: usize = 0;
    while k < names.len()
        invariant
            k <= names@.len(),
            named == names@.map_values(|p: Vec<char>| p@),
            named == split_spec(list@, ','),
            present@.len() == 7,
            first_bad_weekday(named, k as int) is None,
            forall|d: int|
                0 <= d < 7 ==> (#[trigger] present@[d] <==> exists|j: int|
                    0 <= j < k && weekday_of_name(named[j]) == Some(d as u32)),
        decreases names@.len() - k,
    {
        assert(names@[k as int]@ == named[k as int]);
        match weekday_of(&names[k]) {
            Some(d) => {
                let ghost before = present@;
                present[d as usize] = true;
                proof {
                    assert forall|e: int| 0 <= e < 7 implies (#[trigger] present@[e] <==> exists|
                        j: int,
                    |
                        0 <= j < k + 1 && weekday_of_name(named[j]) == Some(e as u32)) by {
                        if e == d {
                            assert(weekday_of_name(named[k as int]) == Some(e as u32));
                        } else {
                            assert(present@[e] == before[e]);
                            if exists|j: int|
                                0 <= j < k + 1 && weekday_of_name(named[j]) == Some(e as u32) {
                                let j = choose|j: int|
                                    0 <= j < k + 1 && weekday_of_name(named[j]) == Some(
                                        e as u32,
                                    );
                                assert(j < k);
                            }
                        }
                    }
                }
            },
            None => {
                let message = framed(
                    "Invalid weekday ",
                    &names[k],
                    ": expected sun, mon, tue, wed, thu, fri or sat",
                );
                proof {
                    lemma_first_bad_stays(named, k as int, named.len() as int);
                }
                return Err(message);
            },
        }
        k += 1;
    }
    let mut days: Vec<u32> = Vec::new();
    let mut d: usize = 0;
    let ghost all = Seq::new(7, |i: int| i as u32);
    let ghost pred = |x: u32| names_weekday(named, x);
    assert(all.take(0) =~= Seq::<u32>::empty());
    while d < 7
        invariant
            d <= 7,
            k == names@.len(),
            named.len() == k,
            present@.len() == 7,
            all == Seq::new(7, |i: int| i as u32),
            pred == (|x: u32| names_weekday(named, x)),
            forall|e: int|
                0 <= e < 7 ==> (#[trigger] present@[e] <==> exists|j: int|
                    0 <= j < k && weekday_of_name(named[j]) == Some(e as u32)),
            days@ == all.take(d as int).filter(pred),
        decreases 7 - d,
    {
        proof {
            reveal_with_fuel(Seq::<_>::filter, 1);
            assert(all.take(d + 1).drop_last() =~= all.take(d as int));
            assert(all.take(d + 1).last() == d as u32);
            assert(pred(d as u32) == present@[d as int]);
        }
        if present[d] {
            days.push(d as u32);
        }
        d += 1;
    }
    assert(all.take(7) =~= all);
    Ok(days)
}

proof fn lemma_first_bad_stays(names: Seq<Seq<char>>, k: int, n: int)
    requires
        0 <= k < n <= names.len(),
        first_bad_weekday(names, k) is None,
        weekday_of_name(names[k]) is None,
    ensures
        first_bad_weekday(names, n) == Some(k),
    decreases n,
{
    if n > k + 1 {
        lemma_first_bad_stays(names, k, n - 1);
    }
}

/// the day of the month a selector names, -1 for `last`
pub fn parse_month_day(day: &Vec<char>) -> (parsed: Result<i32, String>)
    ensures
        match parsed {
            Ok(d) => month_day_spec(day@) == Ok::<i32, Seq<char>>(d),
            Err(message) => month_day_spec(day@) == Err::<i32, Seq<char>>(message@),
        },
{
    if eq_ignore_ascii_case(day, "last") {
        return Ok(-1);
    }
    match parse_i32(day) {
        Some(d) if 1 <= d && d <= 31 => Ok(d),
        _ => Err(framed("Invalid day of month ", day, ": expected 1 to 31 or last")),
    }
}

/// the month and day of an `MM-DD` selector
pub fn parse_month_and_day(date: &Vec<char>) -> (parsed: Result<(u32, u32), String>)
    ensures
        match parsed {
            Ok(md) => month_and_day_spec(date@) == Ok::<(u32, u32), Seq<char>>(md),
            Err(message) => month_and_day_spec(date@) == Err::<(u32, u32), Seq<char>>(message@),
        },
{
    let invalid = framed("Invalid yearly date ", date, ": expected MM-DD");
    let (month, day) = match split_once(date, '-') {
        Some(parts) => parts,
        None => return Err(invalid),
    };
    let month = match parse_u32(&month) {
        Some(m) => m,
        None => return Err(invalid),
    };
    let day = match parse_u32(&day) {
        Some(d) => d,
        None => return Err(invalid),
    };
    // 2024 is a leap year so february 29 passes
    if !date_exists(2024, month, day) {
        return Err(invalid);
    }
    Ok((month, day))
}

/// the amount and unit of an interval such as `2w`
pub fn parse_interval(interval: &Vec<char>) -> (parsed: Result<(i32, FrequencyUnit), String>)
    requires
        interval_splits(interval@),
    ensures
        match parsed {
            Ok(au) => interval_spec(interval@) == Ok::<(i32, FrequencyUnit), Seq<char>>(au),
            Err(message) => interval_spec(interval@) == Err::<(i32, FrequencyUnit), Seq<char>>(
                message@,
            ),
        },
{
    let invalid = framed(
        "Invalid interval ",
        interval,
        ": expected a number and d, w, m or y, such as 2w",
    );
    let n = interval.len();
    let amount_chars = if n == 0 {
        crate::text::slice_of(interval, 0, 0)
    } else {
        crate::text::slice_of(interval, 0, n - 1)
    };
    proof {
        assert(amount_chars@ =~= interval_amount(interval@));
    }
    let amount = match parse_i32(&amount_chars) {
        Some(a) if a >= 1 => a,
        _ => return Err(invalid),
    };
    if n == 0 {
        return Err(invalid);
    }
    let unit = interval[n - 1];
    proof {
        reveal_strlit("d");
        reveal_strlit("w");
        reveal_strlit("m");
        reveal_strlit("y");
        assert(interval_unit(interval@) =~= seq![unit]);
        assert("d"@ =~= seq!['d']);
        assert("w"@ =~= seq!['w']);
        assert("m"@ =~= seq!['m']);
        assert("y"@ =~= seq!['y']);
    }
    if unit == 'd' {
        assert(seq![unit] =~= "d"@);
        Ok((amount, FrequencyUnit::Daily))
    } else if unit == 'w' {
        assert(seq![unit] =~= "w"@);
        assert(seq![unit][0] != 'd');
        assert(seq![unit] != "d"@);
        Ok((amount, FrequencyUnit::Weekly))
    } else if unit == 'm' {
        assert(seq![unit] =~= "m"@);
        assert(seq![unit][0] != 'd');
        assert(seq![unit] != "d"@);
        Ok((amount, FrequencyUnit::Monthly))
    } else if unit == 'y' {
        assert(seq![unit] =~= "y"@);
        assert(seq![unit][0] != 'd');
        assert(seq![unit] != "d"@);
        Ok((amount, FrequencyUnit::Yearly))
    } else {
        proof {
            assert(seq![unit] != "d"@ && seq![unit] != "w"@ && seq![unit] != "m"@ && seq![unit]
                != "y"@) by {
                assert("d"@[0] == 'd');
                assert("w"@[0] == 'w');
                assert("m"@[0] == 'm');
                assert("y"@[0] == 'y');
            }
        }
        Err(invalid)
    }
}

/// a rule a `--repeat` text names counts at least one unit, and names a day of the month other than 0 and a month of the year
pub proof fn lemma_parsed_well_formed(spec: Seq<char>)
    ensures
        repeat_spec_of(spec) matches Ok(rule) ==> crate::repeat::occurrence::well_formed(rule),
{
}

impl RepeatSpec {
    /// the text splits where `parse` looks for the unit of an `after` interval: that interval ends in a character of one byte
    pub fn splits(spec: &str) -> (splits: bool)
        ensures
            splits == repeat_spec_splits(spec@),
    {
        let text = chars_of(spec);
        let (head, selector) = match split_once(&text, ':') {
            Some((head, selector)) => (head, Some(selector)),
            None => (text.clone(), None),
        };
        assert(head@ == spec_head(spec@));
        assert(match selector {
            Some(s) => spec_selector(spec@) == Some(s@),
            None => spec_selector(spec@) is None,
        });
        let (unit, every) = match split_once(&head, '/') {
            Some((unit, every_text)) => match parse_i32(&every_text) {
                Some(n) if n >= 1 => (unit, Some(n)),
                _ => (unit, None),
            },
            None => (head.clone(), Some(1)),
        };
        assert(unit@ == spec_unit(spec@));
        assert(spec_every(spec@) == every);
        match selector {
            Some(interval) => {
                let n = interval.len();
                let ends_short = n == 0 || (interval[n - 1] as u32) < 128;
                !(every == Some(1i32) && eq_ignore_ascii_case(&unit, "after") && !ends_short)
            },
            None => true,
        }
    }
}

impl RepeatSpec {
    /// the rule a `--repeat` text names
    pub fn parse(spec: &str) -> (parsed: Result<RepeatSpec, String>)
        requires
            repeat_spec_splits(spec@),
        ensures
            match parsed {
                Ok(rule) => repeat_spec_of(spec@) == Ok::<(CadenceView, i32), Seq<char>>(rule@),
                Err(message) => repeat_spec_of(spec@) == Err::<(CadenceView, i32), Seq<char>>(
                    message@,
                ),
            },
    {
        let text = chars_of(spec);
        let (head, selector) = match split_once(&text, ':') {
            Some((head, selector)) => (head, Some(selector)),
            None => (text.clone(), None),
        };
        assert(head@ == spec_head(spec@));
        assert(match selector {
            Some(s) => spec_selector(spec@) == Some(s@),
            None => spec_selector(spec@) is None,
        });
        let (unit, every) = match split_once(&head, '/') {
            Some((unit, every_text)) => match parse_i32(&every_text) {
                Some(n) if n >= 1 => (unit, n),
                _ => {
                    return Err(framed("Invalid --repeat ", &text, ": expected a positive number after /"));
                },
            },
            None => (head.clone(), 1),
        };
        assert(unit@ == spec_unit(spec@));
        assert(spec_every(spec@) == Some(every));
        if eq_ignore_ascii_case(&unit, "daily") && selector.is_none() {
            return Ok(RepeatSpec { cadence: Cadence::Daily, every });
        }
        if eq_ignore_ascii_case(&unit, "weekly") {
            let days = match selector {
                None => Vec::new(),
                Some(list) => parse_weekdays(&list)?,
            };
            return Ok(RepeatSpec { cadence: Cadence::Weekly(days), every });
        }
        if eq_ignore_ascii_case(&unit, "monthly") {
            let day = match selector {
                None => None,
                Some(day) => Some(parse_month_day(&day)?),
            };
            return Ok(RepeatSpec { cadence: Cadence::Monthly(day), every });
        }
        if eq_ignore_ascii_case(&unit, "yearly") {
            let date = match selector {
                None => None,
                Some(date) => Some(parse_month_and_day(&date)?),
            };
            return Ok(RepeatSpec { cadence: Cadence::Yearly(date), every });
        }
        if eq_ignore_ascii_case(&unit, "after") && every == 1 {
            let interval = match selector {
                None => {
                    return Err(framed("Invalid --repeat ", &text, ": after needs an interval such as after:2w"));
                },
                Some(interval) => interval,
            };
            let (amount, unit) = parse_interval(&interval)?;
            return Ok(RepeatSpec { cadence: Cadence::AfterCompletion(unit), every: amount });
        }
        Err(framed("Invalid --repeat ", &text, ": expected daily, weekly, monthly, yearly or after"))
    }
}

} // verus!
