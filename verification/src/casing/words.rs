//! Splitting names into words at underscores and lower→upper case changes.
use vstd::prelude::*;

use crate::text::{chars_of, char_is_lowercase, char_is_uppercase, push_char, unicode_is_lowercase, unicode_is_uppercase};

verus! {

/// A word segment, with the number of underscores right before it.
pub struct Word {
    pub text: String,
    pub underscores: usize,
}

impl View for Word {
    type V = (Seq<char>, nat);

    open spec fn view(&self) -> (Seq<char>, nat) {
        (self.text@, self.underscores as nat)
    }
}

/// The state of the splitter after reading a prefix of the input: the words
/// completed so far, the word being read, and the number of underscores
/// right before the word being read (or, at the end, the trailing ones).
pub struct SplitState {
    pub words: Seq<(Seq<char>, nat)>,
    pub current: Seq<char>,
    pub underscores: nat,
}

pub open spec fn split_start() -> SplitState {
    SplitState { words: Seq::empty(), current: Seq::empty(), underscores: 0 }
}

/// One character of input.
pub open spec fn split_step(st: SplitState, c: char) -> SplitState {
    if c == '_' {
        SplitState {
            words: if st.current.len() > 0 {
                st.words.push((st.current, st.underscores))
            } else {
                st.words
            },
            current: Seq::empty(),
            underscores: if st.current.len() > 0 {
                1
            } else {
                st.underscores + 1
            },
        }
    } else if unicode_is_uppercase(c) && st.current.len() > 0 && unicode_is_lowercase(
        st.current.last(),
    ) {
        // lower → upper: the word ends, the new one starts without underscore
        SplitState {
            words: st.words.push((st.current, st.underscores)),
            current: seq![c],
            underscores: 0,
        }
    } else {
        SplitState { words: st.words, current: st.current.push(c), underscores: st.underscores }
    }
}

/// The splitter's state after reading all of `s`.
pub open spec fn split_prefix(s: Seq<char>) -> SplitState
    decreases s.len(),
{
    if s.len() == 0 {
        split_start()
    } else {
        split_step(split_prefix(s.drop_last()), s.last())
    }
}

/// The words of `s`, each with the number of underscores right before it.
pub open spec fn split_words_spec(s: Seq<char>) -> Seq<(Seq<char>, nat)> {
    let st = split_prefix(s);
    if st.current.len() > 0 {
        st.words.push((st.current, st.underscores))
    } else {
        st.words
    }
}

/// The number of underscores at the end of `s`, after its last word.
pub open spec fn trailing_underscores(s: Seq<char>) -> nat {
    let st = split_prefix(s);
    if st.current.len() > 0 {
        0
    } else {
        st.underscores
    }
}

/// All the word texts of `ws`, one after another.
pub open spec fn concat_texts(ws: Seq<(Seq<char>, nat)>) -> Seq<char>
    decreases ws.len(),
{
    if ws.len() == 0 {
        Seq::empty()
    } else {
        concat_texts(ws.drop_last()) + ws.last().0
    }
}

/// `s` without its underscores.
pub open spec fn without_underscores(s: Seq<char>) -> Seq<char> {
    s.filter(|c: char| c != '_')
}

/// Split `s` into words at underscores and at each change from a lowercase
/// to an uppercase character; each word carries the number of underscores
/// right before it, and the underscores after the last word are returned
/// beside the words.
///
/// `"userId"` → `["user", "Id"]`, `"HTTP_STATUS"` → `["HTTP", "STATUS"]`.
pub fn split_words_counted(s: &str) -> (r: (Vec<Word>, usize))
    ensures
        r.0@.map_values(|w: Word| w@) == split_words_spec(s@),
        r.1 == trailing_underscores(s@),
{
    let cs = chars_of(s);
    let n = cs.len();
    let mut words: Vec<Word> = Vec::new();
    let mut current = String::new();
    let mut last: char = ' ';
    let mut underscores: usize = 0;
    let mut i: usize = 0;
    while i < n
        invariant
            n == cs@.len(),
            cs@ == s@,
            i <= n,
            underscores <= i,
            ({
                let st = split_prefix(cs@.take(i as int));
                &&& words@.map_values(|w: Word| w@) == st.words
                &&& current@ == st.current
                &&& underscores == st.underscores
                &&& (current@.len() > 0 ==> last == current@.last())
            }),
        decreases n - i,
    {
        let c = cs[i];
        proof {
            assert(cs@.take(i + 1).drop_last() == cs@.take(i as int));
            assert(cs@.take(i + 1).last() == c);
        }
        if c == '_' {
            if !current.as_str().is_empty() {
                let w = Word { text: current, underscores };
                words.push(w);
                current = String::new();
                proof {
                    assert(words@.map_values(|w: Word| w@) =~= split_prefix(
                        cs@.take(i as int),
                    ).words.push((w.text@, w.underscores as nat)));
                }
                underscores = 1;
            } else {
                underscores = underscores + 1;
            }
        } else if char_is_uppercase(c) && !current.as_str().is_empty() && char_is_lowercase(
            last,
        ) {
            let w = Word { text: current, underscores };
            words.push(w);
            proof {
                assert(words@.map_values(|w: Word| w@) =~= split_prefix(
                    cs@.take(i as int),
                ).words.push((w.text@, w.underscores as nat)));
            }
            current = String::new();
            push_char(&mut current, c);
            underscores = 0;
        } else {
            push_char(&mut current, c);
        }
        last = c;
        i = i + 1;
    }
    proof {
        assert(cs@.take(n as int) == cs@);
    }
    if !current.as_str().is_empty() {
        let w = Word { text: current, underscores };
        words.push(w);
        proof {
            assert(words@.map_values(|w: Word| w@) =~= split_prefix(s@).words.push(
                (w.text@, w.underscores as nat),
            ));
        }
        (words, 0)
    } else {
        (words, underscores)
    }
}

/// Split `s` into words at underscores and at each change from a lowercase
/// to an uppercase character.
///
/// `"userId"` → `["user", "Id"]`, `"HTTP_STATUS"` → `["HTTP", "STATUS"]`.
pub fn split_into_words(s: &str) -> (words: Vec<Word>)
    ensures
        words@.map_values(|w: Word| w@) == split_words_spec(s@),
{
    split_words_counted(s).0
}

/// The splitter's invariant after reading `prefix`: completed words and the
/// current word together are the prefix without underscores, and no word
/// holds an underscore or is empty.
pub open spec fn split_state_ok(st: SplitState, prefix: Seq<char>) -> bool {
    &&& concat_texts(st.words) + st.current == without_underscores(prefix)
    &&& !st.current.contains('_')
    &&& forall|i: int|
        0 <= i < st.words.len() ==> #[trigger] st.words[i].0.len() > 0 && !st.words[i].0.contains(
            '_',
        )
}

proof fn lemma_no_underscore_push(t: Seq<char>, c: char)
    requires
        !t.contains('_'),
        c != '_',
    ensures
        !t.push(c).contains('_'),
{
    if t.push(c).contains('_') {
        let i = choose|i: int| 0 <= i < t.push(c).len() && t.push(c)[i] == '_';
        if i < t.len() {
            assert(t[i] == '_');
        }
    }
}

proof fn lemma_split_prefix_ok(s: Seq<char>)
    ensures
        split_state_ok(split_prefix(s), s),
    decreases s.len(),
{
    reveal_with_fuel(Seq::filter, 1);
    if s.len() == 0 {
        assert(concat_texts(Seq::<(Seq<char>, nat)>::empty()) + Seq::<char>::empty() =~= Seq::<
            char,
        >::empty());
        assert(without_underscores(s) =~= Seq::<char>::empty());
    } else {
        let prev = s.drop_last();
        let c = s.last();
        lemma_split_prefix_ok(prev);
        let st = split_prefix(prev);
        let st2 = split_step(st, c);
        assert(split_prefix(s) == st2);
        if st2.words.len() > st.words.len() {
            assert(st2.words == st.words.push((st.current, st.underscores)));
            assert forall|i: int| 0 <= i < st2.words.len() implies #[trigger] st2.words[i].0.len()
                > 0 && !st2.words[i].0.contains('_') by {
                if i < st.words.len() {
                    assert(st2.words[i] == st.words[i]);
                }
            }
        } else {
            assert(st2.words == st.words);
        }
        reveal_with_fuel(Seq::filter, 1);
        assert(s.drop_last() == prev);
        assert(without_underscores(s) == if c != '_' {
            without_underscores(prev).push(c)
        } else {
            without_underscores(prev)
        });
        if c == '_' {
            if st.current.len() > 0 {
                let ws2 = st.words.push((st.current, st.underscores));
                assert(ws2.drop_last() == st.words);
                assert(concat_texts(ws2) == concat_texts(st.words) + st.current);
                assert(concat_texts(st2.words) + st2.current =~= concat_texts(st2.words));
            } else {
                assert(concat_texts(st.words) + st.current =~= concat_texts(st.words));
                assert(concat_texts(st2.words) + st2.current =~= concat_texts(st2.words));
            }
            assert(!st2.current.contains('_'));
        } else if unicode_is_uppercase(c) && st.current.len() > 0 && unicode_is_lowercase(
            st.current.last(),
        ) {
            let ws2 = st.words.push((st.current, st.underscores));
            assert(ws2.drop_last() == st.words);
            assert(concat_texts(ws2) == concat_texts(st.words) + st.current);
            assert(concat_texts(st2.words) + st2.current =~= concat_texts(st.words) + st.current
                + seq![c]);
            assert(!st2.current.contains('_')) by {
                if st2.current.contains('_') {
                    let i = choose|i: int| 0 <= i < st2.current.len() && st2.current[i] == '_';
                    assert(st2.current[i] == c);
                }
            }
        } else {
            lemma_no_underscore_push(st.current, c);
            assert(concat_texts(st2.words) + st2.current =~= concat_texts(st.words) + st.current
                + seq![c]);
        }
        assert(concat_texts(st2.words) + st2.current == without_underscores(s));
        assert(!st2.current.contains('_'));
    }
}

/// Splitting drops the underscores and nothing else: the words, read one
/// after another, are the input without its underscores. No word is empty
/// and none holds an underscore.
pub proof fn law_split_keeps_all_but_underscores(s: Seq<char>)
    ensures
        concat_texts(split_words_spec(s)) == without_underscores(s),
        forall|i: int|
            0 <= i < split_words_spec(s).len() ==> #[trigger] split_words_spec(s)[i].0.len() > 0
                && !split_words_spec(s)[i].0.contains('_'),
{
    lemma_split_prefix_ok(s);
    let st = split_prefix(s);
    if st.current.len() > 0 {
        let ws2 = st.words.push((st.current, st.underscores));
        assert(ws2.drop_last() == st.words);
        assert(concat_texts(ws2) == concat_texts(st.words) + st.current);
    } else {
        assert(concat_texts(st.words) + st.current =~= concat_texts(st.words));
    }
}

/// The total of the underscore counts of the words.
pub open spec fn counted_underscores(ws: Seq<(Seq<char>, nat)>) -> nat
    decreases ws.len(),
{
    if ws.len() == 0 {
        0
    } else {
        counted_underscores(ws.drop_last()) + ws.last().1
    }
}

/// The number of underscores in `s`.
pub open spec fn underscore_count(s: Seq<char>) -> nat {
    s.filter(|c: char| c == '_').len()
}

proof fn lemma_split_prefix_counts(s: Seq<char>)
    ensures
        counted_underscores(split_prefix(s).words) + split_prefix(s).underscores == underscore_count(s),
    decreases s.len(),
{
    reveal_with_fuel(Seq::filter, 1);
    if s.len() == 0 {
        assert(s.filter(|c: char| c == '_') =~= Seq::<char>::empty());
    } else {
        let prev = s.drop_last();
        lemma_split_prefix_counts(prev);
        let st = split_prefix(prev);
        assert(s.drop_last() == prev);
        let st2 = split_step(st, s.last());
        assert(split_prefix(s) == st2);
        if st2.words.len() > st.words.len() {
            assert(st2.words.drop_last() == st.words);
        } else {
            assert(st2.words == st.words);
        }
    }
}

/// Splitting accounts for every underscore: the counts carried by the words
/// and the trailing ones add up to the number of underscores of the input,
/// so a transform that writes each word's count before it, and the trailing
/// ones at the end, keeps every underscore.
pub proof fn law_split_counts_every_underscore(s: Seq<char>)
    ensures
        counted_underscores(split_words_spec(s)) + trailing_underscores(s) == underscore_count(s),
{
    lemma_split_prefix_counts(s);
    let st = split_prefix(s);
    if st.current.len() > 0 {
        let ws2 = st.words.push((st.current, st.underscores));
        assert(ws2.drop_last() == st.words);
    }
}

} // verus!
