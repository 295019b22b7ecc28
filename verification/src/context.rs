use vstd::prelude::*;

verus! {

/// One setting: a key and its value.
pub struct Setting {
    pub key: String,
    pub value: String,
}

/// The keys and values of `settings`, as text.
pub open spec fn entries(settings: Seq<Setting>) -> Seq<(Seq<char>, Seq<char>)> {
    Seq::new(settings.len(), |i: int| (settings[i].key@, settings[i].value@))
}

/// The value of the first entry with the key `key`.
pub open spec fn setting_of(entries: Seq<(Seq<char>, Seq<char>)>, key: Seq<char>) -> Option<
    Seq<char>,
>
    decreases entries.len(),
{
    if entries.len() == 0 {
        None
    } else if entries[0].0 == key {
        Some(entries[0].1)
    } else {
        setting_of(entries.skip(1), key)
    }
}

/// The entries after `key` was given `value`: the first entry of that key holds the new
/// value in its old place; without such an entry, a new one stands at the end.
pub open spec fn set_setting(
    entries: Seq<(Seq<char>, Seq<char>)>,
    key: Seq<char>,
    value: Seq<char>,
) -> Seq<(Seq<char>, Seq<char>)>
    decreases entries.len(),
{
    if entries.len() == 0 {
        seq![(key, value)]
    } else if entries[0].0 == key {
        seq![(key, value)] + entries.skip(1)
    } else {
        seq![entries[0]] + set_setting(entries.skip(1), key, value)
    }
}

/// Setting a key whose first entry is at `i` changes that entry; setting a key without an
/// entry adds one.
pub proof fn lemma_set_setting(
    entries: Seq<(Seq<char>, Seq<char>)>,
    key: Seq<char>,
    value: Seq<char>,
    i: int,
)
    requires
        0 <= i <= entries.len(),
        forall|j: int| 0 <= j < i ==> entries[j].0 != key,
        i < entries.len() ==> entries[i].0 == key,
    ensures
        set_setting(entries, key, value) == (if i < entries.len() {
            entries.update(i, (key, value))
        } else {
            entries.push((key, value))
        }),
    decreases entries.len(),
{
    if entries.len() == 0 {
        assert(seq![(key, value)] =~= entries.push((key, value)));
    } else if i == 0 {
        assert(seq![(key, value)] + entries.skip(1) =~= entries.update(0, (key, value)));
    } else {
        let rest = entries.skip(1);
        assert(entries[0].0 != key);
        assert forall|j: int| 0 <= j < i - 1 implies rest[j].0 != key by {
            assert(rest[j] == entries[j + 1]);
        }
        lemma_set_setting(rest, key, value, i - 1);
        if i < entries.len() {
            assert(seq![entries[0]] + rest.update(i - 1, (key, value)) =~= entries.update(
                i,
                (key, value),
            ));
        } else {
            assert(seq![entries[0]] + rest.push((key, value)) =~= entries.push((key, value)));
        }
    }
}

/// After a key was given a value, it has that value, and every other key has the value
/// it had.
pub proof fn lemma_set_then_get(
    entries: Seq<(Seq<char>, Seq<char>)>,
    key: Seq<char>,
    value: Seq<char>,
    other: Seq<char>,
)
    ensures
        setting_of(set_setting(entries, key, value), key) == Some(value),
        other != key ==> setting_of(set_setting(entries, key, value), other) == setting_of(
            entries,
            other,
        ),
    decreases entries.len(),
{
    let after = set_setting(entries, key, value);
    if entries.len() == 0 {
        assert(after.skip(1) =~= entries);
    } else if entries[0].0 == key {
        assert(after.skip(1) =~= entries.skip(1));
    } else {
        assert(after.skip(1) =~= set_setting(entries.skip(1), key, value));
        lemma_set_then_get(entries.skip(1), key, value, other);
    }
}

/// What a decoder is told of its surroundings: settings by key.
pub struct Context {
    settings: Vec<Setting>,
}

impl View for Context {
    type V = Seq<(Seq<char>, Seq<char>)>;

    closed spec fn view(&self) -> Seq<(Seq<char>, Seq<char>)> {
        entries(self.settings@)
    }
}

impl Context {
    /// A context with the given settings. Of two settings with one key the first counts.
    pub fn new(settings: Vec<Setting>) -> (c: Context)
        ensures
            c@ == entries(settings@),
    {
        Context { settings }
    }

    /// The value of the setting `key`.
    pub fn get_config(&self, key: &str) -> (r: Option<&String>)
        ensures
            match r {
                Some(v) => setting_of(self@, key@) == Some(v@),
                None => setting_of(self@, key@) is None,
            },
    {
        let wanted = key.to_owned();
        let mut i: usize = 0;
        assert(self@.skip(0) =~= self@);
        while i < self.settings.len()
            invariant
                i <= self.settings@.len(),
                wanted@ == key@,
                setting_of(self@, key@) == setting_of(self@.skip(i as int), key@),
            decreases self.settings@.len() - i,
        {
            assert(self@.skip(i as int)[0] == self@[i as int]);
            if self.settings[i].key == wanted {
                return Some(&self.settings[i].value);
            }
            assert(self@.skip(i as int).skip(1) =~= self@.skip(i + 1));
            i = i + 1;
        }
        None
    }
}

} // verus!
