use vstd::prelude::*;

verus! {

/// Language of the interface texts.
#[derive(Debug, Clone, Copy, PartialEq, Eq, Structural)]
pub enum Language {
    Russian,
    English,
}

impl Default for Language {
    fn default() -> (l: Language)
        ensures
            l == Language::Russian,
    {
        Language::Russian
    }
}

impl Language {
    /// File holding the texts of this language.
    pub fn file_name(self) -> (s: &'static str)
        ensures
            s@ == match self {
                Language::Russian => "assets/locales/ru.ron"@,
                Language::English => "assets/locales/en.ron"@,
            },
    {
        match self {
            Language::Russian => "assets/locales/ru.ron",
            Language::English => "assets/locales/en.ron",
        }
    }

    /// Short name shown in the language switch.
    pub fn label(self) -> (s: &'static str)
        ensures
            s@ == match self {
                Language::Russian => "RU"@,
                Language::English => "EN"@,
            },
    {
        match self {
            Language::Russian => "RU",
            Language::English => "EN",
        }
    }
}

/// Texts by key, as a table of `(key, text)` entries where a later entry for
/// a key replaces an earlier one.
pub open spec fn entries_map(s: Seq<(String, String)>) -> Map<Seq<char>, Seq<char>>
    decreases s.len(),
{
    if s.len() == 0 {
        Map::empty()
    } else {
        entries_map(s.drop_last()).insert(s.last().0@, s.last().1@)
    }
}

/// No key occurs twice.
pub open spec fn distinct_keys(s: Seq<(String, String)>) -> bool {
    forall|i: int, j: int| 0 <= i < s.len() && 0 <= j < s.len() && i != j ==> (#[trigger] s[i]).0@ != (#[trigger] s[j]).0@
}

proof fn lemma_entries_contains(s: Seq<(String, String)>, k: Seq<char>)
    ensures
        entries_map(s).contains_key(k) <==> exists|j: int| 0 <= j < s.len() && (#[trigger] s[j]).0@ == k,
    decreases s.len(),
{
    if s.len() > 0 {
        let t = s.drop_last();
        lemma_entries_contains(t, k);
        if exists|j: int| 0 <= j < s.len() && (#[trigger] s[j]).0@ == k {
            let j = choose|j: int| 0 <= j < s.len() && (#[trigger] s[j]).0@ == k;
            if j < s.len() - 1 {
                assert(t[j] == s[j]);
                assert(entries_map(t).contains_key(k));
            }
        }
        if entries_map(s).contains_key(k) {
            if k == s.last().0@ {
                assert(s[s.len() - 1].0@ == k);
            } else {
                assert(entries_map(t).contains_key(k));
                let j = choose|j: int| 0 <= j < t.len() && (#[trigger] t[j]).0@ == k;
                assert(s[j] == t[j]);
            }
        }
    }
}

proof fn lemma_entries_value(s: Seq<(String, String)>, j: int)
    requires
        distinct_keys(s),
        0 <= j < s.len(),
    ensures
        entries_map(s)[s[j].0@] == s[j].1@,
    decreases s.len(),
{
    let t = s.drop_last();
    if j < s.len() - 1 {
        assert(s[j] != s[s.len() - 1] ==> true);
        assert(s[j].0@ != s[s.len() - 1].0@);
        assert(distinct_keys(t)) by {
            assert forall|a: int, b: int| 0 <= a < t.len() && 0 <= b < t.len() && a != b implies (#[trigger] t[a]).0@ != (#[trigger] t[b]).0@ by {
                assert(t[a] == s[a] && t[b] == s[b]);
            }
        }
        lemma_entries_value(t, j);
        assert(t[j] == s[j]);
    }
}

/// With distinct keys, the table maps each entry's key to its text and
/// knows no other key.
pub proof fn lemma_entries_map(s: Seq<(String, String)>)
    requires
        distinct_keys(s),
    ensures
        forall|k: Seq<char>| #[trigger] entries_map(s).contains_key(k) <==> exists|j: int| 0 <= j < s.len() && (#[trigger] s[j]).0@ == k,
        forall|j: int| 0 <= j < s.len() ==> #[trigger] entries_map(s)[s[j].0@] == s[j].1@,
{
    assert forall|k: Seq<char>| #[trigger] entries_map(s).contains_key(k) <==> exists|j: int| 0 <= j < s.len() && (#[trigger] s[j]).0@ == k by {
        lemma_entries_contains(s, k);
    }
    assert forall|j: int| 0 <= j < s.len() implies #[trigger] entries_map(s)[s[j].0@] == s[j].1@ by {
        lemma_entries_value(s, j);
    }
}

/// What the locale parser reads from the text of a locale file: its table of
/// texts by key, or none when the text is not a RON map of strings to strings.
pub uninterp spec fn locale_table(text: Seq<char>) -> Option<Map<Seq<char>, Seq<char>>>;

/// Texts of a language: those its file holds when it was read and parsed,
/// none otherwise.
pub open spec fn loaded_texts(file: Option<&str>) -> Map<Seq<char>, Seq<char>> {
    match file {
        Some(text) => match locale_table(text@) {
            Some(m) => m,
            None => Map::empty(),
        },
        None => Map::empty(),
    }
}

/// Parses the text of a locale file with `ron::from_str` into a
/// `HashMap<String, String>` and hands out its entries. Claimed of it: it
/// succeeds exactly when `locale_table` gives a table, and the entries then
/// make up that table. The order of the entries is that of the hash map's
/// walk and is left unsaid.
#[verifier::external_body]
fn parse_locale(text: &str) -> (r: Option<Vec<(String, String)>>)
    ensures
        r is Some <==> locale_table(text@) is Some,
        r matches Some(v) ==> entries_map(v@) == locale_table(text@)->0,
{
    match ron::from_str::<std::collections::HashMap<String, String>>(text) {
        Ok(m) => Some(m.into_iter().collect()),
        Err(_) => None,
    }
}

/// Index of the entry whose key is `key`.
fn find_key(strings: &Vec<(String, String)>, key: &String) -> (r: Option<usize>)
    ensures
        match r {
            Some(j) => j < strings@.len() && strings@[j as int].0@ == key@,
            None => forall|m: int| 0 <= m < strings@.len() ==> (#[trigger] strings@[m]).0@ != key@,
        },
{
    let mut j: usize = 0;
    while j < strings.len()
        invariant
            j <= strings@.len(),
            forall|m: int| 0 <= m < j ==> (#[trigger] strings@[m]).0@ != key@,
        decreases strings@.len() - j,
    {
        if strings[j].0 == *key {
            return Some(j);
        }
        j = j + 1;
    }
    None
}

/// Interface texts of the current language.
pub struct Localization {
    pub language: Language,
    strings: Vec<(String, String)>,
}

impl Localization {
    /// The texts by key.
    pub closed spec fn texts(&self) -> Map<Seq<char>, Seq<char>> {
        entries_map(self.strings@)
    }

    /// The current language.
    pub closed spec fn lang(&self) -> Language {
        self.language
    }

    pub closed spec fn wf(&self) -> bool {
        distinct_keys(self.strings@)
    }

    /// Texts of `lang` from the entries of its file; a later entry for a key
    /// replaces an earlier one.
    pub fn from_entries(lang: Language, entries: Vec<(String, String)>) -> (l: Localization)
        ensures
            l.wf(),
            l.lang() == lang,
            l.texts() == entries_map(entries@),
    {
        let mut strings: Vec<(String, String)> = Vec::new();
        let mut i: usize = 0;
        while i < entries.len()
            invariant
                i <= entries@.len(),
                distinct_keys(strings@),
                entries_map(strings@) == entries_map(entries@.take(i as int)),
            decreases entries@.len() - i,
        {
            let key = entries[i].0.clone();
            let text = entries[i].1.clone();
            proof {
                assert(entries@.take(i + 1).drop_last() =~= entries@.take(i as int));
                lemma_entries_map(strings@);
            }
            let found_at = find_key(&strings, &key);
            let ghost before = strings@;
            if let Some(j) = found_at {
                strings.set(j, (key, text));
                proof {
                    assert(distinct_keys(strings@)) by {
                        assert forall|a: int, b: int| 0 <= a < strings@.len() && 0 <= b < strings@.len() && a != b implies (#[trigger] strings@[a]).0@ != (#[trigger] strings@[b]).0@ by {
                            if a != j as int && b != j as int {
                                assert(strings@[a] == before[a] && strings@[b] == before[b]);
                            } else if a == j as int {
                                assert(strings@[b] == before[b]);
                                assert(before[a].0@ != before[b].0@);
                            } else {
                                assert(strings@[a] == before[a]);
                                assert(before[a].0@ != before[b].0@);
                            }
                        }
                    }
                    lemma_entries_map(strings@);
                    assert forall|m: int| 0 <= m < strings@.len() && m != j as int implies strings@[m] == before[m] by {}
                    assert(entries_map(strings@) =~= entries_map(before).insert(key@, text@)) by {
                        assert forall|k: Seq<char>| #[trigger] entries_map(strings@).contains_key(k) == entries_map(before).insert(key@, text@).contains_key(k) by {
                            lemma_entries_contains(strings@, k);
                            lemma_entries_contains(before, k);
                            if exists|m: int| 0 <= m < before.len() && (#[trigger] before[m]).0@ == k {
                                let m = choose|m: int| 0 <= m < before.len() && (#[trigger] before[m]).0@ == k;
                                if m != j as int {
                                    assert(strings@[m] == before[m]);
                                } else {
                                    assert(strings@[j as int].0@ == k);
                                }
                            }
                            if exists|m: int| 0 <= m < strings@.len() && (#[trigger] strings@[m]).0@ == k {
                                let m = choose|m: int| 0 <= m < strings@.len() && (#[trigger] strings@[m]).0@ == k;
                                if m != j as int {
                                    assert(strings@[m] == before[m]);
                                }
                            }
                        }
                        assert forall|k: Seq<char>| #[trigger] entries_map(strings@).contains_key(k) implies entries_map(strings@)[k] == entries_map(before).insert(key@, text@)[k] by {
                            lemma_entries_contains(strings@, k);
                            let m = choose|m: int| 0 <= m < strings@.len() && (#[trigger] strings@[m]).0@ == k;
                            if m != j as int {
                                assert(strings@[m] == before[m]);
                            }
                        }
                    }
                }
            } else {
                strings.push((key, text));
                proof {
                    assert(strings@.drop_last() =~= before);
                    assert(distinct_keys(strings@)) by {
                        assert forall|a: int, b: int| 0 <= a < strings@.len() && 0 <= b < strings@.len() && a != b implies (#[trigger] strings@[a]).0@ != (#[trigger] strings@[b]).0@ by {
                            if a < before.len() && b < before.len() {
                                assert(strings@[a] == before[a] && strings@[b] == before[b]);
                            } else if a < before.len() {
                                assert(strings@[a] == before[a]);
                            } else {
                                assert(strings@[b] == before[b]);
                            }
                        }
                    }
                }
            }
            i = i + 1;
        }
        proof {
            assert(entries@.take(i as int) =~= entries@);
        }
        Localization { language: lang, strings }
    }

    /// Text for `key`, or `key` itself when there is none.
    pub fn t<'a>(&'a self, key: &'a str) -> (r: &'a str)
        requires
            self.wf(),
        ensures
            r@ == if self.texts().contains_key(key@) {
                self.texts()[key@]
            } else {
                key@
            },
    {
        proof {
            lemma_entries_map(self.strings@);
        }
        let k = key.to_owned();
        let mut i: usize = 0;
        while i < self.strings.len()
            invariant
                i <= self.strings@.len(),
                distinct_keys(self.strings@),
                k@ == key@,
                forall|m: int| 0 <= m < i ==> (#[trigger] self.strings@[m]).0@ != key@,
            decreases self.strings@.len() - i,
        {
            if self.strings[i].0 == k {
                proof {
                    lemma_entries_map(self.strings@);
                    assert(self.strings@[i as int].0@ == key@);
                    assert(self.texts().contains_key(key@));
                }
                return self.strings[i].1.as_str();
            }
            i = i + 1;
        }
        proof {
            lemma_entries_map(self.strings@);
        }
        key
    }

    /// Texts of `lang` from its locale file: `file` is the file's text, or
    /// none when it could not be read. A file that does not parse gives no
    /// texts.
    pub fn load(lang: Language, file: Option<&str>) -> (l: Localization)
        ensures
            l.wf(),
            l.lang() == lang,
            l.texts() == loaded_texts(file),
    {
        let entries = match file {
            Some(text) => match parse_locale(text) {
                Some(v) => v,
                None => Vec::new(),
            },
            None => Vec::new(),
        };
        Localization::from_entries(lang, entries)
    }

    /// Switches to `lang` with the texts of its locale file (`file` as in
    /// `load`).
    pub fn set_language(&mut self, lang: Language, file: Option<&str>)
        ensures
            final(self).wf(),
            final(self).lang() == lang,
            final(self).texts() == loaded_texts(file),
    {
        *self = Localization::load(lang, file);
    }

    /// Whether a request for `lang` changes anything.
    pub fn needs_change(&self, lang: Language) -> (b: bool)
        ensures
            b == (self.lang() != lang),
    {
        self.language != lang
    }
}

} // verus!
