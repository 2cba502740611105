//! Localized UI messages and their language fallback rules.

use vstd::prelude::*;

use crate::model::ResolvedLocale;
use crate::text::{blank, is_blank};

verus! {

/// One message in Japanese (optional) and English.
#[derive(Debug, PartialEq, Eq)]
pub struct LocalizedMessage {
    pub ja: Option<String>,
    pub en: String,
}

pub struct MessageView {
    pub ja: Option<Seq<char>>,
    pub en: Seq<char>,
}

impl View for LocalizedMessage {
    type V = MessageView;

    open spec fn view(&self) -> MessageView {
        MessageView {
            ja: match self.ja {
                Some(s) => Some(s@),
                None => None,
            },
            en: self.en@,
        }
    }
}

impl Clone for LocalizedMessage {
    fn clone(&self) -> (r: Self)
        ensures
            r@ == self@,
    {
        let ja = match &self.ja {
            Some(s) => Some(s.clone()),
            None => None,
        };
        LocalizedMessage { ja, en: self.en.clone() }
    }
}

impl Default for LocalizedMessage {
    fn default() -> (r: LocalizedMessage)
        ensures
            r@.ja is None,
            r@.en.len() == 0,
    {
        LocalizedMessage { ja: None, en: String::new() }
    }
}

/// Messages by key.
#[derive(Debug, PartialEq, Eq)]
pub struct MessageCatalog {
    pub entries: Vec<(String, LocalizedMessage)>,
}

impl View for MessageCatalog {
    type V = Seq<(Seq<char>, MessageView)>;

    open spec fn view(&self) -> Seq<(Seq<char>, MessageView)> {
        self.entries@.map_values(|e: (String, LocalizedMessage)| (e.0@, e.1@))
    }
}

impl Default for MessageCatalog {
    fn default() -> (r: MessageCatalog)
        ensures
            r@.len() == 0,
    {
        let r = MessageCatalog { entries: Vec::new() };
        assert(r@ =~= Seq::<(Seq<char>, MessageView)>::empty());
        r
    }
}

/// The message stored under `key` (the first entry with that key).
pub open spec fn find_message(entries: Seq<(Seq<char>, MessageView)>, key: Seq<char>) -> Option<
    MessageView,
>
    decreases entries.len(),
{
    if entries.len() == 0 {
        None
    } else if entries[0].0 == key {
        Some(entries[0].1)
    } else {
        find_message(entries.drop_first(), key)
    }
}

/// The text shown for `key`: the Japanese text when asked for and not
/// blank, else the English one; for English, the key itself when the
/// English text is blank; the key itself when there is no such message.
pub open spec fn message_text(
    entries: Seq<(Seq<char>, MessageView)>,
    locale: ResolvedLocale,
    key: Seq<char>,
) -> Seq<char> {
    match find_message(entries, key) {
        None => key,
        Some(m) => match locale {
            ResolvedLocale::Ja => match m.ja {
                Some(j) => if blank(j) {
                    m.en
                } else {
                    j
                },
                None => m.en,
            },
            ResolvedLocale::En => if blank(m.en) {
                key
            } else {
                m.en
            },
        },
    }
}

proof fn lemma_find_message_at(entries: Seq<(Seq<char>, MessageView)>, key: Seq<char>, i: int)
    requires
        0 <= i <= entries.len(),
        forall|j: int| 0 <= j < i ==> #[trigger] entries[j].0 != key,
    ensures
        i < entries.len() && entries[i].0 == key ==> find_message(entries, key) == Some(
            entries[i].1,
        ),
        i == entries.len() ==> find_message(entries, key) is None,
    decreases i,
{
    if i > 0 {
        let rest = entries.drop_first();
        assert forall|j: int| 0 <= j < i - 1 implies #[trigger] rest[j].0 != key by {
            assert(rest[j] == entries[j + 1]);
        }
        lemma_find_message_at(rest, key, i - 1);
    }
}

impl MessageCatalog {
    /// The text to show for `key` in `locale` (see `message_text`).
    pub fn text(&self, locale: ResolvedLocale, key: &str) -> (r: String)
        ensures
            r@ == message_text(self@, locale, key@),
    {
        let key_string = key.to_owned();
        let mut i: usize = 0;
        while i < self.entries.len()
            invariant
                key_string@ == key@,
                i <= self.entries.len(),
                forall|j: int| 0 <= j < i ==> #[trigger] self@[j].0 != key@,
            decreases self.entries.len() - i,
        {
            if self.entries[i].0 == key_string {
                proof {
                    lemma_find_message_at(self@, key@, i as int);
                }
                let message = &self.entries[i].1;
                return match locale {
                    ResolvedLocale::Ja => match &message.ja {
                        Some(ja) => {
                            if is_blank(ja.as_str()) {
                                message.en.clone()
                            } else {
                                ja.clone()
                            }
                        },
                        None => message.en.clone(),
                    },
                    ResolvedLocale::En => {
                        if is_blank(message.en.as_str()) {
                            key_string
                        } else {
                            message.en.clone()
                        }
                    },
                };
            }
            i = i + 1;
        }
        proof {
            lemma_find_message_at(self@, key@, i as int);
        }
        key_string
    }

    /// Stores `message` under `key`, replacing any message stored there.
    pub fn insert(&mut self, key: String, message: LocalizedMessage)
        ensures
            forall|k: Seq<char>|
                #[trigger] find_message(final(self)@, k) == if k == key@ {
                    Some(message@)
                } else {
                    find_message(old(self)@, k)
                },
    {
        let ghost old_view = self@;
        let mut i: usize = 0;
        while i < self.entries.len()
            invariant
                self@ == old_view,
                old_view == old(self)@,
                i <= self.entries.len(),
                forall|j: int| 0 <= j < i ==> #[trigger] self@[j].0 != key@,
            decreases self.entries.len() - i,
        {
            if self.entries[i].0 == key {
                let ghost kv = key@;
                let ghost mv = message@;
                self.entries.set(i, (key, message));
                proof {
                    let new_view = self@;
                    assert(new_view =~= old_view.update(i as int, (kv, mv)));
                    assert forall|k: Seq<char>|
                        #[trigger] find_message(new_view, k) == if k == kv {
                            Some(mv)
                        } else {
                            find_message(old_view, k)
                        } by {
                        lemma_find_message_update(old_view, i as int, kv, mv, k);
                    }
                }
                return;
            }
            i = i + 1;
        }
        let ghost kv = key@;
        let ghost mv = message@;
        self.entries.push((key, message));
        proof {
            let new_view = self@;
            assert(new_view =~= old_view.push((kv, mv)));
            lemma_find_message_at(old_view, kv, i as int);
            assert forall|k: Seq<char>|
                #[trigger] find_message(new_view, k) == if k == kv {
                    Some(mv)
                } else {
                    find_message(old_view, k)
                } by {
                lemma_find_message_push(old_view, kv, mv, k);
            }
        }
    }
}

proof fn lemma_find_message_update(
    entries: Seq<(Seq<char>, MessageView)>,
    i: int,
    kv: Seq<char>,
    mv: MessageView,
    k: Seq<char>,
)
    requires
        0 <= i < entries.len(),
        entries[i].0 == kv,
        forall|j: int| 0 <= j < i ==> #[trigger] entries[j].0 != kv,
    ensures
        find_message(entries.update(i, (kv, mv)), k) == if k == kv {
            Some(mv)
        } else {
            find_message(entries, k)
        },
    decreases i,
{
    let updated = entries.update(i, (kv, mv));
    if i == 0 {
        assert(updated.drop_first() =~= entries.drop_first());
    } else {
        let rest = entries.drop_first();
        assert(updated.drop_first() =~= rest.update(i - 1, (kv, mv)));
        assert forall|j: int| 0 <= j < i - 1 implies #[trigger] rest[j].0 != kv by {
            assert(rest[j] == entries[j + 1]);
        }
        lemma_find_message_update(rest, i - 1, kv, mv, k);
    }
}

proof fn lemma_find_message_push(
    entries: Seq<(Seq<char>, MessageView)>,
    kv: Seq<char>,
    mv: MessageView,
    k: Seq<char>,
)
    requires
        find_message(entries, kv) is None,
    ensures
        find_message(entries.push((kv, mv)), k) == if k == kv {
            Some(mv)
        } else {
            find_message(entries, k)
        },
    decreases entries.len(),
{
    let pushed = entries.push((kv, mv));
    if entries.len() == 0 {
        assert(pushed.drop_first() =~= Seq::<(Seq<char>, MessageView)>::empty());
    } else {
        assert(pushed.drop_first() =~= entries.drop_first().push((kv, mv)));
        lemma_find_message_push(entries.drop_first(), kv, mv, k);
    }
}

/// A message without a Japanese text (or with a blank one) reads the same
/// in Japanese as in English, when its English text is not blank.
pub proof fn law_missing_japanese_falls_back_to_english(
    entries: Seq<(Seq<char>, MessageView)>,
    key: Seq<char>,
)
    requires
        find_message(entries, key) matches Some(m) && !blank(m.en) && match m.ja {
            Some(j) => blank(j),
            None => true,
        },
    ensures
        message_text(entries, ResolvedLocale::Ja, key) == message_text(entries, ResolvedLocale::En, key),
{
}

/// After a message is stored under `key` (as `insert` does), `key` reads
/// as that message and every other key reads as before.
pub proof fn law_text_after_insert(
    before: Seq<(Seq<char>, MessageView)>,
    after: Seq<(Seq<char>, MessageView)>,
    key: Seq<char>,
    message: MessageView,
)
    requires
        forall|k: Seq<char>|
            #[trigger] find_message(after, k) == if k == key {
                Some(message)
            } else {
                find_message(before, k)
            },
    ensures
        message_text(after, ResolvedLocale::En, key) == if blank(message.en) {
            key
        } else {
            message.en
        },
        forall|k: Seq<char>, l: ResolvedLocale|
            k != key ==> #[trigger] message_text(after, l, k) == message_text(before, l, k),
{
    assert(find_message(after, key) == Some(message));
    assert forall|k: Seq<char>, l: ResolvedLocale|
        k != key implies #[trigger] message_text(after, l, k) == message_text(before, l, k) by {
        assert(find_message(after, k) == find_message(before, k));
    }
}

} // verus!
