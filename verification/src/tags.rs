//! Character names in a chat request: the `<Name>...</Name>` blocks that a
//! character card puts into the system messages.

use vstd::prelude::*;
use crate::text::{
    chars_of, find, matches_at, lemma_trim_of_trimmed, lemma_find_from_shift, lemma_find_from_skip, is_white_space, trim_end, trim_start, find_from, join_chars, lemma_find_from, string_of, sub_chars, trim, trim_bounds,
};

verus! {

broadcast use vstd::string::group_string_axioms;

/// One message of a chat request, as far as the name scan reads it: its `role`
/// and its `content`, each present when the request gives a string there.
pub struct ChatMessage {
    pub role: Option<String>,
    pub content: Option<String>,
}

/// The Unicode lower case of `s`, as std's `str::to_lowercase` computes it.
pub uninterp spec fn lowercase(s: Seq<char>) -> Seq<char>;

/// std's `str::to_lowercase`; its result is named `lowercase`, a function of
/// the text alone (Unicode case tables fixed in std).
#[verifier::external_body]
fn to_lowercase(s: &str) -> (r: String)
    ensures
        r@ == lowercase(s@),
{
    s.to_lowercase()
}

/// Tag names, in lower case, that mark prompt scaffolding rather than a character.
pub open spec fn is_scaffolding_name(lowered: Seq<char>) -> bool {
    ||| lowered == "system"@
    ||| lowered == "scenario"@
    ||| lowered == "example_dialogs"@
    ||| lowered == "roleplay_guidelines"@
    ||| lowered == "userpersona"@
}

/// Whether an already lower-cased tag name is one of the scaffolding names.
pub fn is_scaffolding(lowered: &str) -> (b: bool)
    ensures
        b == is_scaffolding_name(lowered@),
{
    let l = lowered.to_owned();
    l == String::from_str("system") || l == String::from_str("scenario") || l == String::from_str(
        "example_dialogs",
    ) || l == String::from_str("roleplay_guidelines") || l == String::from_str("userpersona")
}

/// `body` with every `<system>...</system>` block taken out, first block first;
/// an opening tag with no closing tag after it ends the removal.
pub open spec fn strip_system(body: Seq<char>) -> Seq<char>
    decreases body.len(),
{
    match find_from(body, "<system>"@, 0) {
        None => body,
        Some(s) => match find_from(body, "</system>"@, s) {
            None => body,
            Some(e) => {
                proof {
                    lemma_find_from(body, "<system>"@, 0);
                    lemma_find_from(body, "</system>"@, s);
                    reveal_strlit("</system>");
                }
                strip_system(body.take(s) + body.skip(e + "</system>"@.len()))
            },
        },
    }
}

/// A block `<tag>inner</tag>` names a character when its inner text is longer
/// than 200 characters, the tag is no scaffolding name, and it is new.
pub open spec fn names_character(tag: Seq<char>, inner: Seq<char>, names: Seq<Seq<char>>) -> bool {
    &&& inner.len() > 200
    &&& !is_scaffolding_name(lowercase(tag))
    &&& !names.contains(tag)
}

/// The closing tag for `tag`.
pub open spec fn closing_tag(tag: Seq<char>) -> Seq<char> {
    "</"@ + tag + ">"@
}

/// The scan of `body` from position `i` on: at each `<`, the text up to the next
/// `>` (trimmed) is a tag; an empty tag, a closing tag, or `system` is passed over;
/// otherwise the block up to the first matching closing tag is read and skipped.
/// A `<` with no `>` after it ends the scan.
pub open spec fn scan_tags(body: Seq<char>, i: int, names: Seq<Seq<char>>) -> Seq<Seq<char>>
    decreases body.len() - i,
{
    if i < 0 || i >= body.len() {
        names
    } else if body[i] != '<' {
        scan_tags(body, i + 1, names)
    } else {
        match find_from(body, seq!['>'], i + 1) {
            None => names,
            Some(j) => {
                proof {
                    lemma_find_from(body, seq!['>'], i + 1);
                }
                let tag = trim(body.subrange(i + 1, j));
                if tag.len() == 0 || tag[0] == '/' || tag == "system"@ {
                    scan_tags(body, j + 1, names)
                } else {
                    match find_from(body, closing_tag(tag), j + 1) {
                        None => scan_tags(body, j + 1, names),
                        Some(e) => {
                            proof {
                                lemma_find_from(body, closing_tag(tag), j + 1);
                            }
                            let inner = body.subrange(j + 1, e);
                            let next = if names_character(tag, inner, names) {
                                names.push(tag)
                            } else {
                                names
                            };
                            scan_tags(body, e + closing_tag(tag).len(), next)
                        },
                    }
                }
            },
        }
    }
}

/// The names after reading one message: only a message whose role is `system`
/// and whose content is a string contributes.
pub open spec fn message_names(m: ChatMessage, names: Seq<Seq<char>>) -> Seq<Seq<char>> {
    match (m.role, m.content) {
        (Some(role), Some(content)) => if role@ == "system"@ {
            scan_tags(strip_system(content@), 0, names)
        } else {
            names
        },
        _ => names,
    }
}

/// The character names in `msgs`, in order of first appearance.
pub open spec fn names_in(msgs: Seq<ChatMessage>) -> Seq<Seq<char>>
    decreases msgs.len(),
{
    if msgs.len() == 0 {
        seq![]
    } else {
        message_names(msgs.last(), names_in(msgs.drop_last()))
    }
}

/// The character views of a list of strings.
pub open spec fn views(v: Seq<String>) -> Seq<Seq<char>> {
    v.map_values(|s: String| s@)
}

/// `body` with its `<system>...</system>` blocks taken out.
fn strip_system_blocks(body: Vec<char>) -> (r: Vec<char>)
    ensures
        r@ == strip_system(body@),
{
    let open = chars_of("<system>");
    let close = chars_of("</system>");
    proof {
        reveal_strlit("</system>");
    }
    let mut cur = body;
    let mut done = false;
    while !done
        invariant
            open@ == "<system>"@,
            close@ == "</system>"@,
            close@.len() == 9,
            strip_system(cur@) == strip_system(body@),
            done ==> strip_system(cur@) == cur@,
        decreases 2 * cur@.len() + (if done { 0int } else { 1int }),
    {
        match find(&cur, &open, 0) {
            None => {
                done = true;
            },
            Some(s) => {
                match find(&cur, &close, s) {
                    None => {
                        done = true;
                    },
                    Some(e) => {
                        proof {
                            lemma_find_from(cur@, open@, 0);
                            lemma_find_from(cur@, close@, s as int);
                            assert(matches_at(cur@, close@, e as int));
                            assert(e + close@.len() <= cur@.len());
                        }
                        let cur_len = cur.len();
                        assert(cur_len == cur@.len());
                        let left = sub_chars(&cur, 0, s);
                        let right = sub_chars(&cur, e + close.len(), cur_len);
                        proof {
                            assert(left@ =~= cur@.take(s as int));
                            assert(right@ =~= cur@.skip(e + 9));
                        }
                        cur = join_chars(&left, &right);
                    },
                }
            },
        }
    }
    cur
}

/// Whether `names` already holds `tag`.
fn holds_name(names: &Vec<String>, tag: &String) -> (b: bool)
    ensures
        b == views(names@).contains(tag@),
{
    let n = names.len();
    for k in 0..n
        invariant
            n == names@.len(),
            forall|q: int| 0 <= q < k ==> names@[q]@ != tag@,
    {
        if names[k] == *tag {
            assert(views(names@)[k as int] == tag@);
            return true;
        }
    }
    proof {
        if views(names@).contains(tag@) {
            let q = choose|q: int| 0 <= q < views(names@).len() && views(names@)[q] == tag@;
            assert(names@[q]@ == tag@);
        }
    }
    false
}

/// Adds the character names of one (already stripped) system text to `names`.
fn scan_text(body: &Vec<char>, names: &mut Vec<String>)
    ensures
        views(final(names)@) == scan_tags(body@, 0, views(old(names)@)),
{
    let gt = vec!['>'];
    assert(gt@ =~= seq!['>']);
    let system_word = String::from_str("system");
    let open_close = chars_of("</");
    let end_close = chars_of(">");
    let ghost target = scan_tags(body@, 0, views(old(names)@));
    let mut i: usize = 0;
    while i < body.len()
        invariant
            gt@ == seq!['>'],
            system_word@ == "system"@,
            open_close@ == "</"@,
            end_close@ == ">"@,
            i <= body@.len(),
            scan_tags(body@, i as int, views(names@)) == target,
        decreases body@.len() - i,
    {
        if body[i] != '<' {
            i = i + 1;
        } else {
            match find(body, &gt, i + 1) {
                None => {
                    i = body.len();
                },
                Some(j) => {
                    proof {
                        lemma_find_from(body@, gt@, i + 1);
                    }
                    let (a, b) = trim_bounds(body, i + 1, j);
                    let tag = sub_chars(body, a, b);
                    let tag_text = string_of(tag.as_slice());
                    if a == b || tag[0] == '/' || tag_text == system_word {
                        i = j + 1;
                    } else {
                        let close = join_chars(&join_chars(&open_close, &tag), &end_close);
                        assert(close@ == closing_tag(tag@));
                        match find(body, &close, j + 1) {
                            None => {
                                i = j + 1;
                            },
                            Some(e) => {
                                proof {
                                    lemma_find_from(body@, close@, j + 1);
                                }
                                let ghost before = views(names@);
                                let keep = e - (j + 1) > 200 && !is_scaffolding(
                                    to_lowercase(tag_text.as_str()).as_str(),
                                ) && !holds_name(names, &tag_text);
                                if keep {
                                    names.push(tag_text);
                                    assert(views(names@) =~= before.push(tag@));
                                }
                                i = e + close.len();
                            },
                        }
                    }
                },
            }
        }
    }
}

/// The character names that the system messages of a chat request define, in
/// order of first appearance, each once. A request whose `messages` is not a
/// list (`None`) defines none.
pub fn characters_of(messages: Option<&Vec<ChatMessage>>) -> (names: Vec<String>)
    ensures
        views(names@) == match messages {
            Some(msgs) => names_in(msgs@),
            None => Seq::<Seq<char>>::empty(),
        },
        well_formed_names(views(names@)),
{
    proof {
        if let Some(msgs) = messages {
            lemma_character_names_well_formed(msgs@);
        }
    }
    let mut names: Vec<String> = Vec::new();
    match messages {
        None => {
            assert(views(names@) =~= Seq::<Seq<char>>::empty());
            names
        },
        Some(msgs) => {
            let n = msgs.len();
            assert(views(names@) =~= names_in(msgs@.take(0)));
            let system_word = String::from_str("system");
            for k in 0..n
                invariant
                    n == msgs@.len(),
                    system_word@ == "system"@,
                    views(names@) == names_in(msgs@.take(k as int)),
            {
                let m = &msgs[k];
                assert(msgs@.take(k + 1).drop_last() =~= msgs@.take(k as int));
                if let (Some(role), Some(content)) = (&m.role, &m.content) {
                    if *role == system_word {
                        let body = strip_system_blocks(chars_of(content.as_str()));
                        scan_text(&body, &mut names);
                    }
                }
            }
            assert(msgs@.take(n as int) =~= msgs@);
            names
        },
    }
}

/// What every reported name is: a non-empty tag with no white space at either
/// end, no closing tag, not `system`, and no scaffolding name in any letter case.
pub open spec fn is_character_name(t: Seq<char>) -> bool {
    &&& t.len() > 0
    &&& !is_white_space(t[0])
    &&& !is_white_space(t.last())
    &&& t[0] != '/'
    &&& t != "system"@
    &&& !is_scaffolding_name(lowercase(t))
}

/// A list of character names, none of them twice.
pub open spec fn well_formed_names(names: Seq<Seq<char>>) -> bool {
    &&& forall|k: int| 0 <= k < names.len() ==> is_character_name(#[trigger] names[k])
    &&& forall|a: int, b: int| 0 <= a < b < names.len() ==> names[a] != names[b]
}

proof fn lemma_trim_start_shape(s: Seq<char>)
    ensures
        trim_start(s).len() > 0 ==> !is_white_space(trim_start(s)[0]),
    decreases s.len(),
{
    if s.len() > 0 && is_white_space(s[0]) {
        lemma_trim_start_shape(s.drop_first());
    }
}

proof fn lemma_trim_end_shape(s: Seq<char>)
    ensures
        trim_end(s).len() <= s.len(),
        trim_end(s) == s.take(trim_end(s).len() as int),
        trim_end(s).len() > 0 ==> !is_white_space(trim_end(s).last()),
    decreases s.len(),
{
    if s.len() > 0 && is_white_space(s.last()) {
        lemma_trim_end_shape(s.drop_last());
        let t = trim_end(s.drop_last());
        assert(s.drop_last().take(t.len() as int) =~= s.take(t.len() as int));
    } else {
        assert(s.take(s.len() as int) =~= s);
    }
}

/// A trimmed text has no white space at either end.
proof fn lemma_trim_shape(s: Seq<char>)
    ensures
        trim(s).len() > 0 ==> !is_white_space(trim(s)[0]) && !is_white_space(trim(s).last()),
{
    lemma_trim_start_shape(s);
    lemma_trim_end_shape(trim_start(s));
}

proof fn lemma_scan_keeps_well_formed(body: Seq<char>, i: int, names: Seq<Seq<char>>)
    requires
        well_formed_names(names),
    ensures
        well_formed_names(scan_tags(body, i, names)),
    decreases body.len() - i,
{
    if i < 0 || i >= body.len() {
    } else if body[i] != '<' {
        lemma_scan_keeps_well_formed(body, i + 1, names);
    } else {
        match find_from(body, seq!['>'], i + 1) {
            None => {},
            Some(j) => {
                lemma_find_from(body, seq!['>'], i + 1);
                let tag = trim(body.subrange(i + 1, j));
                if tag.len() == 0 || tag[0] == '/' || tag == "system"@ {
                    lemma_scan_keeps_well_formed(body, j + 1, names);
                } else {
                    match find_from(body, closing_tag(tag), j + 1) {
                        None => {
                            lemma_scan_keeps_well_formed(body, j + 1, names);
                        },
                        Some(e) => {
                            lemma_find_from(body, closing_tag(tag), j + 1);
                            let inner = body.subrange(j + 1, e);
                            if names_character(tag, inner, names) {
                                lemma_trim_shape(body.subrange(i + 1, j));
                                let next = names.push(tag);
                                assert forall|a: int, b: int| 0 <= a < b < next.len() implies next[a]
                                    != next[b] by {
                                    if b == names.len() {
                                        assert(names[a] == next[a]);
                                        if names[a] == tag {
                                            assert(names.contains(tag));
                                        }
                                    }
                                }
                                assert(forall|k: int|
                                    0 <= k < next.len() ==> is_character_name(#[trigger] next[k]));
                                lemma_scan_keeps_well_formed(body, e + closing_tag(tag).len(), next);
                            } else {
                                lemma_scan_keeps_well_formed(
                                    body,
                                    e + closing_tag(tag).len(),
                                    names,
                                );
                            }
                        },
                    }
                }
            },
        }
    }
}

/// Every name that `characters_of` reports is a character name, and none is
/// reported twice, whatever the messages hold.
pub proof fn lemma_character_names_well_formed(msgs: Seq<ChatMessage>)
    ensures
        well_formed_names(names_in(msgs)),
    decreases msgs.len(),
{
    if msgs.len() > 0 {
        lemma_character_names_well_formed(msgs.drop_last());
        let m = msgs.last();
        match (m.role, m.content) {
            (Some(role), Some(content)) => if role@ == "system"@ {
                lemma_scan_keeps_well_formed(
                    strip_system(content@),
                    0,
                    names_in(msgs.drop_last()),
                );
            },
            _ => {},
        }
    }
}

/// The tags of `body`, from position `i` on, whose blocks are long enough and
/// are no scaffolding, in the order the scan meets them, repeats included.
pub open spec fn tag_candidates(body: Seq<char>, i: int) -> Seq<Seq<char>>
    decreases body.len() - i,
{
    if i < 0 || i >= body.len() {
        seq![]
    } else if body[i] != '<' {
        tag_candidates(body, i + 1)
    } else {
        match find_from(body, seq!['>'], i + 1) {
            None => seq![],
            Some(j) => {
                proof {
                    lemma_find_from(body, seq!['>'], i + 1);
                }
                let tag = trim(body.subrange(i + 1, j));
                if tag.len() == 0 || tag[0] == '/' || tag == "system"@ {
                    tag_candidates(body, j + 1)
                } else {
                    match find_from(body, closing_tag(tag), j + 1) {
                        None => tag_candidates(body, j + 1),
                        Some(e) => {
                            proof {
                                lemma_find_from(body, closing_tag(tag), j + 1);
                            }
                            let rest = tag_candidates(body, e + closing_tag(tag).len());
                            if body.subrange(j + 1, e).len() > 200 && !is_scaffolding_name(
                                lowercase(tag),
                            ) {
                                seq![tag] + rest
                            } else {
                                rest
                            }
                        },
                    }
                }
            },
        }
    }
}

/// `names` with the candidates appended in order, each only if not yet present.
pub open spec fn add_new(names: Seq<Seq<char>>, cands: Seq<Seq<char>>) -> Seq<Seq<char>>
    decreases cands.len(),
{
    if cands.len() == 0 {
        names
    } else {
        add_new(
            if names.contains(cands[0]) {
                names
            } else {
                names.push(cands[0])
            },
            cands.drop_first(),
        )
    }
}

/// The candidates of one message.
pub open spec fn message_candidates(m: ChatMessage) -> Seq<Seq<char>> {
    match (m.role, m.content) {
        (Some(role), Some(content)) => if role@ == "system"@ {
            tag_candidates(strip_system(content@), 0)
        } else {
            seq![]
        },
        _ => seq![],
    }
}

/// The candidates of all messages, in order.
pub open spec fn all_candidates(msgs: Seq<ChatMessage>) -> Seq<Seq<char>>
    decreases msgs.len(),
{
    if msgs.len() == 0 {
        seq![]
    } else {
        all_candidates(msgs.drop_last()) + message_candidates(msgs.last())
    }
}

proof fn lemma_scan_adds_candidates(body: Seq<char>, i: int, names: Seq<Seq<char>>)
    ensures
        scan_tags(body, i, names) == add_new(names, tag_candidates(body, i)),
    decreases body.len() - i,
{
    if i < 0 || i >= body.len() {
    } else if body[i] != '<' {
        lemma_scan_adds_candidates(body, i + 1, names);
    } else {
        match find_from(body, seq!['>'], i + 1) {
            None => {},
            Some(j) => {
                lemma_find_from(body, seq!['>'], i + 1);
                let tag = trim(body.subrange(i + 1, j));
                if tag.len() == 0 || tag[0] == '/' || tag == "system"@ {
                    lemma_scan_adds_candidates(body, j + 1, names);
                } else {
                    match find_from(body, closing_tag(tag), j + 1) {
                        None => {
                            lemma_scan_adds_candidates(body, j + 1, names);
                        },
                        Some(e) => {
                            lemma_find_from(body, closing_tag(tag), j + 1);
                            let k = e + closing_tag(tag).len();
                            let rest = tag_candidates(body, k);
                            let inner = body.subrange(j + 1, e);
                            if inner.len() > 200 && !is_scaffolding_name(lowercase(tag)) {
                                let next = if names.contains(tag) {
                                    names
                                } else {
                                    names.push(tag)
                                };
                                lemma_scan_adds_candidates(body, k, next);
                                let c = seq![tag] + rest;
                                assert(c[0] == tag);
                                assert(c.drop_first() =~= rest);
                            } else {
                                lemma_scan_adds_candidates(body, k, names);
                            }
                        },
                    }
                }
            },
        }
    }
}

proof fn lemma_add_new_concat(names: Seq<Seq<char>>, x: Seq<Seq<char>>, y: Seq<Seq<char>>)
    ensures
        add_new(names, x + y) == add_new(add_new(names, x), y),
    decreases x.len(),
{
    if x.len() == 0 {
        assert(x + y =~= y);
    } else {
        let next = if names.contains(x[0]) {
            names
        } else {
            names.push(x[0])
        };
        lemma_add_new_concat(next, x.drop_first(), y);
        assert((x + y)[0] == x[0]);
        assert((x + y).drop_first() =~= x.drop_first() + y);
    }
}

proof fn lemma_names_are_added_candidates(msgs: Seq<ChatMessage>)
    ensures
        names_in(msgs) == add_new(seq![], all_candidates(msgs)),
    decreases msgs.len(),
{
    if msgs.len() > 0 {
        lemma_names_are_added_candidates(msgs.drop_last());
        let m = msgs.last();
        let before = names_in(msgs.drop_last());
        match (m.role, m.content) {
            (Some(role), Some(content)) => if role@ == "system"@ {
                lemma_scan_adds_candidates(strip_system(content@), 0, before);
            },
            _ => {},
        }
        lemma_add_new_concat(seq![], all_candidates(msgs.drop_last()), message_candidates(m));
    }
}

proof fn lemma_all_candidates_concat(a: Seq<ChatMessage>, b: Seq<ChatMessage>)
    ensures
        all_candidates(a + b) == all_candidates(a) + all_candidates(b),
    decreases b.len(),
{
    if b.len() == 0 {
        assert(a + b =~= a);
        assert(all_candidates(a) + Seq::<Seq<char>>::empty() =~= all_candidates(a));
    } else {
        lemma_all_candidates_concat(a, b.drop_last());
        assert((a + b).drop_last() =~= a + b.drop_last());
        assert((a + b).last() == b.last());
        assert(all_candidates(a) + all_candidates(b.drop_last()) + message_candidates(b.last())
            =~= all_candidates(a) + (all_candidates(b.drop_last()) + message_candidates(
            b.last(),
        )));
    }
}

proof fn lemma_add_new_single(names: Seq<Seq<char>>, x: Seq<char>)
    ensures
        add_new(names, seq![x]) == if names.contains(x) {
            names
        } else {
            names.push(x)
        },
{
    let next = if names.contains(x) {
        names
    } else {
        names.push(x)
    };
    assert(seq![x][0] == x);
    assert(seq![x].drop_first() =~= Seq::<Seq<char>>::empty());
    assert(add_new(next, Seq::<Seq<char>>::empty()) == next);
}

/// Adding candidates to `names` appends, in order, the new names the
/// candidates give on their own, leaving out those `names` already holds.
proof fn lemma_add_new_appends_fresh(names: Seq<Seq<char>>, cands: Seq<Seq<char>>)
    ensures
        add_new(names, cands) == names + add_new(seq![], cands).filter(
            |t: Seq<char>| !names.contains(t),
        ),
    decreases cands.len(),
{
    let p = |t: Seq<char>| !names.contains(t);
    reveal(Seq::filter);
    if cands.len() == 0 {
        assert(add_new(seq![], cands).filter(p) =~= Seq::<Seq<char>>::empty());
        assert(names + Seq::<Seq<char>>::empty() =~= names);
    } else {
        let front = cands.drop_last();
        let x = cands.last();
        assert(front + seq![x] =~= cands);
        lemma_add_new_appends_fresh(names, front);
        lemma_add_new_concat(names, front, seq![x]);
        lemma_add_new_concat(seq![], front, seq![x]);
        let t = add_new(names, front);
        let r = add_new(seq![], front);
        let f = r.filter(p);
        lemma_add_new_single(t, x);
        lemma_add_new_single(r, x);
        assert(add_new(t, seq![x]) == if t.contains(x) {
            t
        } else {
            t.push(x)
        });
        assert(add_new(r, seq![x]) == if r.contains(x) {
            r
        } else {
            r.push(x)
        });
        assert(r.push(x).drop_last() =~= r);
        if t.contains(x) {
            if !r.contains(x) {
                if !names.contains(x) {
                    let q = choose|q: int| 0 <= q < t.len() && t[q] == x;
                    assert(t[q] == f[q - names.len()]);
                    assert(f.contains(x));
                    r.lemma_filter_contains_rev(p, x);
                }
                assert(r.push(x).filter(p) == f);
            }
        } else {
            assert(!names.contains(x)) by {
                if names.contains(x) {
                    let q = choose|q: int| 0 <= q < names.len() && names[q] == x;
                    assert(t[q] == x);
                }
            }
            assert(!r.contains(x)) by {
                if r.contains(x) {
                    let q = choose|q: int| 0 <= q < r.len() && r[q] == x;
                    r.lemma_filter_contains(p, q);
                    let w = choose|w: int| 0 <= w < f.len() && f[w] == x;
                    assert(t[names.len() + w] == x);
                }
            }
            assert(r.push(x).filter(p) == f.push(x));
            assert(t.push(x) =~= names + f.push(x));
        }
    }
}

/// Reading two message lists one after the other gives the names of the first,
/// then those names of the second, in their order, that the first does not hold.
pub proof fn lemma_names_of_joined_messages(a: Seq<ChatMessage>, b: Seq<ChatMessage>)
    ensures
        names_in(a + b) == names_in(a) + names_in(b).filter(
            |t: Seq<char>| !names_in(a).contains(t),
        ),
{
    lemma_names_are_added_candidates(a + b);
    lemma_names_are_added_candidates(a);
    lemma_names_are_added_candidates(b);
    lemma_all_candidates_concat(a, b);
    lemma_add_new_concat(seq![], all_candidates(a), all_candidates(b));
    lemma_add_new_appends_fresh(names_in(a), all_candidates(b));
}

/// A message that is not a system message with text content.
pub open spec fn is_not_system_text(m: ChatMessage) -> bool {
    !(m.role matches Some(r) && r@ == "system"@ && m.content is Some)
}

/// Messages other than system texts name nobody: appending them changes nothing.
pub proof fn lemma_non_system_messages_add_nothing(a: Seq<ChatMessage>, b: Seq<ChatMessage>)
    requires
        forall|k: int| 0 <= k < b.len() ==> is_not_system_text(#[trigger] b[k]),
    ensures
        names_in(a + b) == names_in(a),
    decreases b.len(),
{
    if b.len() > 0 {
        assert(b.drop_last().len() < b.len());
        assert forall|k: int| 0 <= k < b.drop_last().len() implies is_not_system_text(
            #[trigger] b.drop_last()[k],
        ) by {
            assert(b.drop_last()[k] == b[k]);
        }
        lemma_non_system_messages_add_nothing(a, b.drop_last());
        assert((a + b).drop_last() =~= a + b.drop_last());
        assert((a + b).last() == b[b.len() - 1]);
        assert(is_not_system_text(b[b.len() - 1]));
    } else {
        assert(a + b =~= a);
    }
}

/// Text with no `<` before a rest leaves the system blocks of the rest to be
/// removed as they would be alone, and itself stays.
proof fn lemma_strip_after_plain_text(a: Seq<char>, b: Seq<char>)
    requires
        !a.contains('<'),
    ensures
        strip_system(a + b) == a + strip_system(b),
    decreases b.len(),
{
    reveal_strlit("<system>");
    reveal_strlit("</system>");
    let open = "<system>"@;
    let close = "</system>"@;
    let h = a + b;
    assert forall|q: int| 0 <= q < a.len() implies h[q] != open[0] by {
        assert(h[q] == a[q]);
        if h[q] == '<' {
            assert(a.contains('<'));
        }
    }
    lemma_find_from_skip(h, open, 0, a.len() as int);
    lemma_find_from_shift(a, b, open, 0);
    assert(a.len() + 0 == a.len());
    match find_from(b, open, 0) {
        None => {},
        Some(sb) => {
            lemma_find_from(b, open, 0);
            lemma_find_from_shift(a, b, close, sb);
            match find_from(b, close, sb) {
                None => {},
                Some(eb) => {
                    lemma_find_from(b, open, 0);
                    lemma_find_from(b, close, sb);
                    let rest = b.take(sb) + b.skip(eb + close.len());
                    let s0 = a.len() + sb;
                    let e0 = a.len() + eb;
                    assert(h.take(s0) + h.skip(e0 + close.len()) =~= a + rest);
                    lemma_strip_after_plain_text(a, rest);
                },
            }
        },
    }
}

/// A system block is taken out whole, and nothing around it: with plain text
/// before it (no `<`) and plain text inside it (no `<`), removing the system
/// blocks of `a <system> x </system> b` keeps `a` and goes on with `b`.
pub proof fn lemma_strip_removes_one_block(a: Seq<char>, x: Seq<char>, b: Seq<char>)
    requires
        !a.contains('<'),
        !x.contains('<'),
    ensures
        strip_system(a + "<system>"@ + x + "</system>"@ + b) == a + strip_system(b),
{
    reveal_strlit("<system>");
    reveal_strlit("</system>");
    let open = "<system>"@;
    let close = "</system>"@;
    let w = open + x + close + b;
    assert(a + open + x + close + b =~= a + w);
    lemma_strip_after_plain_text(a, w);
    let c: int = 8 + x.len() as int;
    assert(w.subrange(0, 8) =~= open);
    assert(find_from(w, open, 0) == Some(0int));
    assert(w[1] == 's');
    assert(!matches_at(w, close, 0)) by {
        if matches_at(w, close, 0) {
            assert(w.subrange(0, 9)[1] == close[1]);
        }
    }
    assert forall|q: int| 1 <= q < c implies w[q] != close[0] by {
        if q < 8 {
            assert(w[q] == open[q]);
        } else {
            assert(w[q] == x[q - 8]);
            if w[q] == '<' {
                assert(x.contains('<'));
            }
        }
    }
    lemma_find_from_skip(w, close, 1, c);
    assert(w.subrange(c, c + 9) =~= close);
    assert(find_from(w, close, 0) == Some(c));
    assert(w.take(0) + w.skip(c + 9) =~= b);
}

/// A system text made of one block `<t>inner</t>` names exactly `t`, when `t`
/// is a character name (inner white space and all) and the block is long
/// enough: the tag is read whole between `<` and `>`, only its ends trimmed.
pub proof fn lemma_single_block_names_its_tag(t: Seq<char>, inner: Seq<char>)
    requires
        t.len() > 0,
        !is_white_space(t[0]),
        !is_white_space(t.last()),
        t[0] != '/',
        t != "system"@,
        !is_scaffolding_name(lowercase(t)),
        !t.contains('<'),
        !t.contains('>'),
        inner.len() > 200,
        !inner.contains('<'),
    ensures
        scan_tags(strip_system("<"@ + t + ">"@ + inner + closing_tag(t)), 0, seq![]) == seq![t],
{
    reveal_strlit("<");
    reveal_strlit(">");
    reveal_strlit("</");
    reveal_strlit("<system>");
    reveal_strlit("system");
    let close = closing_tag(t);
    let body = "<"@ + t + ">"@ + inner + close;
    let n = t.len() as int;
    let j = 1 + n;
    let c = 2 + n + inner.len() as int;
    assert(close.len() == n + 3);
    assert(body.len() == c + n + 3);
    assert(body[0] == '<');
    assert forall|q: int| 1 <= q < j implies body[q] == t[q - 1] by {}
    assert(body[j] == '>');
    assert forall|q: int| j + 1 <= q < c implies body[q] == inner[q - j - 1] by {}
    assert forall|q: int| 0 <= q < close.len() implies body[c + q] == close[q] by {}
    assert(close[0] == '<' && close[1] == '/');
    // no system block: the only `<` are at 0 and at the closing tag
    let open = "<system>"@;
    assert forall|k: int| !matches_at(body, open, k) by {
        if matches_at(body, open, k) {
            assert(body.subrange(k, k + 8)[0] == open[0]);
            assert(body[k] == '<');
            if 1 <= k < j {
                assert(t.contains(t[k - 1]));
            } else if j + 1 <= k < c {
                assert(inner.contains(inner[k - j - 1]));
            } else if k == c {
                assert(body.subrange(k, k + 8)[1] == open[1]);
            } else if k > c {
                assert(body[k] == close[k - c]);
                assert(t.contains(t[k - c - 2]));
            } else if k == j {
            } else {
                assert(k == 0);
                if n > 6 {
                    assert(body.subrange(0, 8)[7] == open[7]);
                    assert(t.contains(t[6]));
                } else if n < 6 {
                    assert(body.subrange(0, 8)[j] == open[j]);
                } else {
                    assert forall|q: int| 0 <= q < 6 implies t[q] == "system"@[q] by {
                        assert(body.subrange(0, 8)[q + 1] == open[q + 1]);
                    }
                    assert(t =~= "system"@);
                }
            }
        }
    }
    lemma_find_from(body, open, 0);
    assert(strip_system(body) == body);
    // the tag runs to the first `>`
    let gt = seq!['>'];
    assert forall|q: int| 1 <= q < j implies body[q] != gt[0] by {
        if body[q] == '>' {
            assert(t.contains(t[q - 1]));
        }
    }
    lemma_find_from_skip(body, gt, 1, j);
    assert(body.subrange(j, j + 1) =~= gt);
    assert(find_from(body, gt, 1) == Some(j));
    assert(body.subrange(1, j) =~= t);
    lemma_trim_of_trimmed(t);
    // the block runs to its closing tag
    assert forall|q: int| j + 1 <= q < c implies body[q] != close[0] by {
        if body[q] == '<' {
            assert(inner.contains(inner[q - j - 1]));
        }
    }
    lemma_find_from_skip(body, close, j + 1, c);
    assert(body.subrange(c, c + close.len()) =~= close);
    assert(find_from(body, close, j + 1) == Some(c));
    assert(body.subrange(j + 1, c) =~= inner);
    assert(!Seq::<Seq<char>>::empty().contains(t));
    assert(names_character(t, inner, seq![]));
    assert(seq![].push(t) =~= seq![t]);
    assert(scan_tags(body, c + close.len(), seq![t]) == seq![t]);
}

} // verus!
