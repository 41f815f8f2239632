//! The options of a UCI engine: values by name, in the order of the names.

use vstd::prelude::*;
use crate::text::{
    lemma_text_le_total, lemma_text_le_transitive, same_text, text_at_most, text_le,
};

verus! {

/// One option: its name and its value.
pub type OptionView = (Seq<char>, Seq<char>);

/// Options in the order of their names, each name once.
#[derive(Debug, PartialEq, Eq)]
pub struct UciOptions {
    entries: Vec<(String, String)>,
}

/// The contents of a list of options.
pub open spec fn options_view(entries: Seq<(String, String)>) -> Seq<OptionView> {
    entries.map_values(|e: (String, String)| (e.0@, e.1@))
}

/// Whether one name comes strictly before another.
pub open spec fn name_before(a: Seq<char>, b: Seq<char>) -> bool {
    text_le(a, b) && a != b
}

/// Whether the names ascend strictly.
pub open spec fn names_ascend(options: Seq<OptionView>) -> bool {
    forall|i: int, j: int|
        0 <= i < j < options.len() ==> name_before((#[trigger] options[i]).0, (#[trigger] options[j]).0)
}

/// The value of an option.
pub open spec fn option_value(options: Seq<OptionView>, name: Seq<char>) -> Option<Seq<char>>
    decreases options.len(),
{
    if options.len() == 0 {
        None
    } else if options[0].0 == name {
        Some(options[0].1)
    } else {
        option_value(options.skip(1), name)
    }
}

/// The options after one is set: in place of its old value, or at the place of its name.
pub open spec fn with_option(
    options: Seq<OptionView>,
    name: Seq<char>,
    value: Seq<char>,
) -> Seq<OptionView>
    decreases options.len(),
{
    if options.len() == 0 {
        seq![(name, value)]
    } else if options[0].0 == name {
        seq![(name, value)] + options.skip(1)
    } else if text_le(name, options[0].0) {
        seq![(name, value)] + options
    } else {
        seq![options[0]] + with_option(options.skip(1), name, value)
    }
}

impl View for UciOptions {
    type V = Seq<OptionView>;

    closed spec fn view(&self) -> Seq<OptionView> {
        options_view(self.entries@)
    }
}

impl UciOptions {
    pub fn new() -> (r: UciOptions)
        ensures
            r@ == Seq::<OptionView>::empty(),
            names_ascend(r@),
    {
        UciOptions { entries: Vec::new() }
    }

    pub fn len(&self) -> (r: usize)
        ensures
            r == self@.len(),
    {
        self.entries.len()
    }

    /// The name at an index.
    pub fn name(&self, i: usize) -> (r: &str)
        requires
            i < self@.len(),
        ensures
            r@ == self@[i as int].0,
    {
        self.entries[i].0.as_str()
    }

    /// The value at an index.
    pub fn value(&self, i: usize) -> (r: &str)
        requires
            i < self@.len(),
        ensures
            r@ == self@[i as int].1,
    {
        self.entries[i].1.as_str()
    }

    /// The value of an option.
    pub fn get(&self, name: &str) -> (r: Option<&String>)
        ensures
            match r {
                Some(value) => option_value(self@, name@) == Some(value@),
                None => option_value(self@, name@) is None,
            },
    {
        let mut i: usize = 0;
        assert(self@.skip(0) == self@);
        while i < self.entries.len()
            invariant
                i <= self.entries@.len(),
                option_value(self@, name@) == option_value(self@.skip(i as int), name@),
            decreases self.entries.len() - i,
        {
            assert(self@.skip(i as int)[0] == self@[i as int]);
            assert(self@.skip(i as int).skip(1) == self@.skip(i + 1));
            if same_text(self.entries[i].0.as_str(), name) {
                return Some(&self.entries[i].1);
            }
            i = i + 1;
        }
        None
    }

    /// Sets an option.
    pub fn insert(&mut self, name: String, value: String)
        requires
            names_ascend(old(self)@),
        ensures
            final(self)@ == with_option(old(self)@, name@, value@),
            names_ascend(final(self)@),
    {
        let ghost before = self@;
        let ghost option = (name@, value@);
        let mut at: usize = 0;
        assert(before.skip(0) == before);
        assert(before.take(0) + with_option(before, name@, value@) == with_option(
            before,
            name@,
            value@,
        ));
        while at < self.entries.len() && !text_at_most(name.as_str(), self.entries[at].0.as_str())
            invariant
                at <= self.entries@.len(),
                before == self@,
                with_option(before, name@, value@) == before.take(at as int) + with_option(
                    before.skip(at as int),
                    name@,
                    value@,
                ),
            decreases self.entries.len() - at,
        {
            proof {
                lemma_text_le_total(name@, name@);
                let rest = before.skip(at as int);
                assert(rest[0] == before[at as int]);
                assert(rest.skip(1) == before.skip(at + 1));
                assert(before.take(at as int) + (seq![rest[0]] + with_option(
                    before.skip(at + 1),
                    name@,
                    value@,
                )) == before.take(at + 1) + with_option(before.skip(at + 1), name@, value@));
            }
            at = at + 1;
        }
        proof {
            let rest = before.skip(at as int);
            if at < before.len() {
                assert(rest[0] == before[at as int]);
            }
            set_keeps_names_ascending(before, name@, value@);
        }
        if at < self.entries.len() && same_text(self.entries[at].0.as_str(), name.as_str()) {
            self.entries.set(at, (name, value));
            assert(self@ == before.take(at as int) + (seq![option] + before.skip(at as int).skip(
                1,
            )));
        } else {
            self.entries.insert(at, (name, value));
            assert(self@ == before.take(at as int) + (seq![option] + before.skip(at as int)));
        }
    }
}

impl Clone for UciOptions {
    fn clone(&self) -> (r: UciOptions)
        ensures
            r@ == self@,
    {
        let mut entries: Vec<(String, String)> = Vec::new();
        let mut i: usize = 0;
        while i < self.entries.len()
            invariant
                i <= self.entries@.len(),
                options_view(entries@) == self@.take(i as int),
            decreases self.entries.len() - i,
        {
            let ghost before = options_view(entries@);
            entries.push((self.entries[i].0.clone(), self.entries[i].1.clone()));
            assert(options_view(entries@) == before.push(self@[i as int]));
            i = i + 1;
        }
        assert(self@.take(i as int) == self@);
        UciOptions { entries }
    }
}

/// Setting an option keeps the names in strictly ascending order.
pub proof fn set_keeps_names_ascending(
    options: Seq<OptionView>,
    name: Seq<char>,
    value: Seq<char>,
)
    requires
        names_ascend(options),
    ensures
        names_ascend(with_option(options, name, value)),
        forall|i: int|
            0 <= i < with_option(options, name, value).len() ==> #[trigger] with_option(
                options,
                name,
                value,
            )[i] == (name, value) || options.contains(with_option(options, name, value)[i]),
    decreases options.len(),
{
    let after = with_option(options, name, value);
    if options.len() > 0 {
        let rest = options.skip(1);
        assert forall|i: int, j: int| 0 <= i < j < rest.len() implies name_before(
            (#[trigger] rest[i]).0,
            (#[trigger] rest[j]).0,
        ) by {
            assert(name_before(options[i + 1].0, options[j + 1].0));
        }
        set_keeps_names_ascending(rest, name, value);
        if options[0].0 == name {
            assert forall|i: int, j: int| 0 <= i < j < after.len() implies name_before(
                (#[trigger] after[i]).0,
                (#[trigger] after[j]).0,
            ) by {
                assert(name_before(options[i].0, options[j].0));
            }
            assert forall|i: int| 0 <= i < after.len() implies #[trigger] after[i] == (name, value)
                || options.contains(after[i]) by {
                if i > 0 {
                    assert(after[i] == options[i]);
                }
            }
        } else if text_le(name, options[0].0) {
            assert forall|i: int, j: int| 0 <= i < j < after.len() implies name_before(
                (#[trigger] after[i]).0,
                (#[trigger] after[j]).0,
            ) by {
                if i > 0 {
                    assert(name_before(options[i - 1].0, options[j - 1].0));
                } else {
                    if j > 1 {
                        assert(name_before(options[0].0, options[j - 1].0));
                        lemma_text_le_transitive(name, options[0].0, options[j - 1].0);
                        lemma_text_le_total(options[0].0, options[j - 1].0);
                    }
                }
            }
            assert forall|i: int| 0 <= i < after.len() implies #[trigger] after[i] == (name, value)
                || options.contains(after[i]) by {
                if i > 0 {
                    assert(after[i] == options[i - 1]);
                }
            }
        } else {
            let tail = with_option(rest, name, value);
            lemma_text_le_total(name, options[0].0);
            assert forall|i: int| 0 <= i < tail.len() implies name_before(
                options[0].0,
                (#[trigger] tail[i]).0,
            ) && (tail[i] == (name, value) || options.contains(tail[i])) by {
                if tail[i] != (name, value) {
                    let k = choose|k: int| 0 <= k < rest.len() && rest[k] == tail[i];
                    assert(options[k + 1] == tail[i]);
                    assert(name_before(options[0].0, options[k + 1].0));
                }
            }
            assert forall|i: int, j: int| 0 <= i < j < after.len() implies name_before(
                (#[trigger] after[i]).0,
                (#[trigger] after[j]).0,
            ) by {
                if i > 0 {
                    assert(name_before(tail[i - 1].0, tail[j - 1].0));
                } else {
                    assert(after[j] == tail[j - 1]);
                }
            }
            assert forall|i: int| 0 <= i < after.len() implies #[trigger] after[i] == (name, value)
                || options.contains(after[i]) by {
                if i > 0 {
                    assert(after[i] == tail[i - 1]);
                } else {
                    assert(after[i] == options[0]);
                }
            }
        }
    }
}

/// What is read after an option is set: the value set, and of every other name what was
/// there before.
pub proof fn set_then_read(
    options: Seq<OptionView>,
    name: Seq<char>,
    value: Seq<char>,
    other: Seq<char>,
)
    ensures
        option_value(with_option(options, name, value), other) == if other == name {
            Some(value)
        } else {
            option_value(options, other)
        },
    decreases options.len(),
{
    let after = with_option(options, name, value);
    if options.len() > 0 {
        if options[0].0 == name {
            assert(after.skip(1) == options.skip(1));
        } else if text_le(name, options[0].0) {
            assert(after.skip(1) == options);
        } else {
            assert(after.skip(1) == with_option(options.skip(1), name, value));
            set_then_read(options.skip(1), name, value, other);
        }
    } else {
        assert(after.skip(1) == options);
    }
}

/// The value found under a name is the one that stands with it, and nothing is found exactly
/// where the name does not occur.
pub proof fn value_of_a_name(options: Seq<OptionView>, name: Seq<char>)
    requires
        names_ascend(options),
    ensures
        forall|i: int|
            0 <= i < options.len() && (#[trigger] options[i]).0 == name ==> option_value(
                options,
                name,
            ) == Some(options[i].1),
        option_value(options, name) is None <==> (forall|i: int|
            0 <= i < options.len() ==> (#[trigger] options[i]).0 != name),
    decreases options.len(),
{
    if options.len() > 0 {
        let rest = options.skip(1);
        assert forall|i: int, j: int| 0 <= i < j < rest.len() implies name_before(
            (#[trigger] rest[i]).0,
            (#[trigger] rest[j]).0,
        ) by {
            assert(name_before(options[i + 1].0, options[j + 1].0));
        }
        value_of_a_name(rest, name);
        assert forall|i: int| 0 <= i < options.len() && (#[trigger] options[i]).0
            == name implies option_value(options, name) == Some(options[i].1) by {
            if i > 0 {
                assert(name_before(options[0].0, options[i].0));
                assert(rest[i - 1] == options[i]);
            }
        }
        if options[0].0 != name {
            if option_value(rest, name) is None {
                assert forall|i: int| 0 <= i < options.len() implies (#[trigger] options[i]).0
                    != name by {
                    if i > 0 {
                        assert(rest[i - 1] == options[i]);
                    }
                }
            } else {
                let i = choose|i: int| 0 <= i < rest.len() && (#[trigger] rest[i]).0 == name;
                assert(options[i + 1].0 == name);
            }
        }
    }
}

/// Setting an option adds it where its name is new, and else leaves the number of options
/// as it was.
pub proof fn set_adds_at_most_one(options: Seq<OptionView>, name: Seq<char>, value: Seq<char>)
    requires
        names_ascend(options),
    ensures
        with_option(options, name, value).len() == options.len() + (if option_value(
            options,
            name,
        ) is None {
            1int
        } else {
            0int
        }),
    decreases options.len(),
{
    value_of_a_name(options, name);
    if options.len() > 0 {
        let rest = options.skip(1);
        assert forall|i: int, j: int| 0 <= i < j < rest.len() implies name_before(
            (#[trigger] rest[i]).0,
            (#[trigger] rest[j]).0,
        ) by {
            assert(name_before(options[i + 1].0, options[j + 1].0));
        }
        if options[0].0 != name {
            if text_le(name, options[0].0) {
                assert forall|i: int| 0 <= i < options.len() implies (#[trigger] options[i]).0
                    != name by {
                    if i > 0 {
                        assert(name_before(options[0].0, options[i].0));
                        lemma_text_le_total(name, options[0].0);
                    }
                }
            } else {
                set_adds_at_most_one(rest, name, value);
            }
        }
    }
}

} // verus!
