//! Commit metadata as the analysis reads it.
use crate::text::{
    chars_of, is_blank, lowercase, string_from_chars, to_lowercase, trim, trim_spec,
};
use vstd::prelude::*;

verus! {

/// The metadata of one commit.
#[derive(Debug, Clone)]
pub struct IndexedCommit {
    pub hash: String,
    pub short_hash: String,
    pub author_name: String,
    pub author_email: Option<String>,
    pub author_key: String,
    pub committed_at: String,
    pub subject: String,
    pub parents: Vec<String>,
    pub is_merge: bool,
}

/// The key that identifies an author: the trimmed, lowercased email when it is not blank,
/// otherwise the trimmed, lowercased name.
pub open spec fn author_key_spec(name: Seq<char>, email: Option<Seq<char>>) -> Seq<char> {
    match email {
        Some(e) => if !is_blank(e) {
            lowercase(trim_spec(e))
        } else {
            lowercase(trim_spec(name))
        },
        None => lowercase(trim_spec(name)),
    }
}

/// The key that identifies an author.
pub fn author_key(name: &str, email: Option<&str>) -> (key: String)
    ensures
        key@ == author_key_spec(
            name@,
            match email {
                Some(e) => Some(e@),
                None => None,
            },
        ),
{
    let chosen = match email {
        Some(value) => if !crate::text::blank(value) {
            value
        } else {
            name
        },
        None => name,
    };
    let trimmed = trim(chosen);
    to_lowercase(trimmed.as_str())
}

/// The first line of a commit message, without a carriage return before its line feed.
pub open spec fn subject_spec(message: Seq<char>) -> Seq<char> {
    let first = crate::text::split_nl(message)[0];
    if first.len() > 0 && first.last() == '\r' {
        first.drop_last()
    } else {
        first
    }
}

/// The first `n` characters of `s` (all of it when shorter).
pub open spec fn prefix_spec(s: Seq<char>, n: int) -> Seq<char> {
    if s.len() <= n {
        s
    } else {
        s.take(n)
    }
}

/// The commit metadata from the raw fields of a commit: names and email trimmed, an empty email
/// left out, the subject as the message's first line, the short hash as the first 8 characters.
pub fn indexed_commit_from_parts(
    hash: &str,
    author_name: &str,
    author_email: &str,
    committed_at: String,
    message: &str,
    parents: Vec<String>,
) -> (c: IndexedCommit)
    ensures
        c.hash@ == hash@,
        c.short_hash@ == prefix_spec(hash@, 8),
        c.author_name@ == trim_spec(author_name@),
        match c.author_email {
            Some(e) => e@ == trim_spec(author_email@) && trim_spec(author_email@).len() > 0,
            None => trim_spec(author_email@).len() == 0,
        },
        c.author_key@ == author_key_spec(
            c.author_name@,
            match c.author_email {
                Some(e) => Some(e@),
                None => None,
            },
        ),
        c.committed_at == committed_at,
        c.subject@ == subject_spec(message@),
        c.parents == parents,
        c.is_merge == (parents@.len() > 1),
{
    let name = trim(author_name);
    let email_text = trim(author_email);
    let email_chars = chars_of(email_text.as_str());
    let email = if email_chars.len() > 0 {
        Some(email_text)
    } else {
        None
    };
    let key = author_key(
        name.as_str(),
        match &email {
            Some(e) => Some(e.as_str()),
            None => None,
        },
    );
    let hash_chars = chars_of(hash);
    let short_len = if hash_chars.len() <= 8 {
        hash_chars.len()
    } else {
        8
    };
    let short_hash = string_from_chars(&hash_chars, 0, short_len);
    assert(hash@.len() <= 8 ==> hash@.subrange(0, short_len as int) =~= hash@);
    let message_chars = chars_of(message);
    let mut end: usize = 0;
    while end < message_chars.len() && message_chars[end] != '\n'
        invariant
            message_chars@ == message@,
            end <= message_chars.len(),
            forall|k: int| 0 <= k < end ==> message_chars@[k] != '\n',
        decreases message_chars.len() - end,
    {
        end += 1;
    }
    proof {
        lemma_first_piece(message@, end as int);
    }
    let line_end = if end > 0 && message_chars[end - 1] == '\r' {
        end - 1
    } else {
        end
    };
    let subject = string_from_chars(&message_chars, 0, line_end);
    let is_merge = parents.len() > 1;
    IndexedCommit {
        hash: String::from_str(hash),
        short_hash,
        author_name: name,
        author_email: email,
        author_key: key,
        committed_at,
        subject,
        parents,
        is_merge,
    }
}

proof fn lemma_no_newline(s: Seq<char>)
    requires
        forall|k: int| 0 <= k < s.len() ==> s[k] != '\n',
    ensures
        crate::text::split_nl(s) == seq![s],
    decreases s.len(),
{
    if s.len() > 0 {
        let t = s.drop_last();
        lemma_no_newline(t);
        assert(s.last() == s[s.len() - 1]);
        assert(s.last() != '\n');
        assert(t.push(s.last()) =~= s);
        assert(crate::text::split_nl(s) == seq![t].update(0, t.push(s.last())));
        assert(seq![t].update(0, t.push(s.last())) =~= seq![s]);
    } else {
        assert(s =~= Seq::<char>::empty());
    }
}

proof fn lemma_first_piece(s: Seq<char>, end: int)
    requires
        0 <= end <= s.len(),
        forall|k: int| 0 <= k < end ==> s[k] != '\n',
        end < s.len() ==> s[end] == '\n',
    ensures
        crate::text::split_nl(s)[0] == s.take(end),
    decreases s.len(),
{
    if end == s.len() {
        lemma_no_newline(s);
        assert(s.take(end) =~= s);
    } else {
        let t = s.drop_last();
        crate::text::lemma_split_nl_nonempty(t);
        if end == t.len() {
            lemma_no_newline(t);
            assert(t =~= s.take(end));
        } else {
            lemma_first_piece(t, end);
            assert(t.take(end) =~= s.take(end));
            if s.last() != '\n' {
                lemma_only_piece(t, end);
            }
        }
    }
}

proof fn lemma_only_piece(t: Seq<char>, end: int)
    requires
        0 <= end < t.len(),
        t[end] == '\n',
    ensures
        crate::text::split_nl(t).len() > 1,
    decreases t.len(),
{
    crate::text::lemma_split_nl_nonempty(t.drop_last());
    if end < t.len() - 1 {
        lemma_only_piece(t.drop_last(), end);
    }
}

/// The commits of a range: those the head's walk meets that the base's walk does not, oldest
/// first (the reverse of the walk's order).
pub open spec fn range_hashes_spec(head_walk: Seq<Seq<char>>, base_walk: Seq<Seq<char>>) -> Seq<Seq<char>> {
    head_walk.filter(|h: Seq<char>| !base_walk.contains(h)).reverse()
}

/// The commits of a range from the hashes the head's and the base's walks give.
pub fn range_hashes_from_walks(head_walk: &[String], base_walk: &Vec<String>) -> (hashes: Vec<String>)
    ensures
        crate::attribution::patch_inference::texts(hashes@) == range_hashes_spec(
            crate::attribution::patch_inference::texts(head_walk@),
            crate::attribution::patch_inference::texts(base_walk@),
        ),
{
    let ghost hv = crate::attribution::patch_inference::texts(head_walk@);
    let ghost bv = crate::attribution::patch_inference::texts(base_walk@);
    let ghost keep = |h: Seq<char>| !bv.contains(h);
    let mut hashes: Vec<String> = Vec::new();
    let mut i: usize = head_walk.len();
    assert(hv.skip(i as int) =~= Seq::<Seq<char>>::empty());
    while i > 0
        invariant
            i <= head_walk@.len(),
            hv == crate::attribution::patch_inference::texts(head_walk@),
            bv == crate::attribution::patch_inference::texts(base_walk@),
            keep == |h: Seq<char>| !bv.contains(h),
            crate::attribution::patch_inference::texts(hashes@) == hv.skip(i as int).filter(keep).reverse(),
        decreases i,
    {
        proof {
            let tail = hv.skip(i as int);
            assert(hv.skip(i - 1) =~= seq![hv[i - 1]] + tail);
            Seq::filter_distributes_over_add(seq![hv[i - 1]], tail, keep);
            assert(seq![hv[i - 1]].filter(keep) =~= if keep(hv[i - 1]) {
                seq![hv[i - 1]]
            } else {
                Seq::empty()
            }) by {
                reveal_with_fuel(Seq::filter, 2);
            }
        }
        if !crate::git::diff::contains_path(base_walk, head_walk[i - 1].as_str()) {
            let ghost before = crate::attribution::patch_inference::texts(hashes@);
            let h = head_walk[i - 1].clone();
            hashes.push(h);
            assert(crate::attribution::patch_inference::texts(hashes@) =~= before.push(h@));
            assert(hv.skip(i - 1).filter(keep).reverse() =~= before.push(hv[i - 1]));
        } else {
            assert(hv.skip(i - 1).filter(keep) =~= hv.skip(i as int).filter(keep));
        }
        i -= 1;
    }
    assert(hv.skip(0) =~= hv);
    hashes
}

} // verus!
