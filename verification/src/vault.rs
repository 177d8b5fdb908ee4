use vstd::prelude::*;

use vstd::utf8::encode_utf8;

use crate::codec::{
    b64_decodable, b64_decode, b64_len, decode_base64, encode_base64, try_decode_base64,
};
use crate::model::{
    entries_view, result_view, text_or_empty, CSVfile, CsvView, EntryView, File,
    IndividualService, Service, VaultError,
};
use crate::secrets::{
    decrypt, decrypt_defined, decrypt_outcome, decryptable, encodes_16_bytes, encrypt, gen_salt,
    lemma_decrypt_inverts_encrypt, master_hash, master_keys, max_password_bytes,
    key_text_valid, max_plaintext_bytes, salt_hashable,
};
use crate::text::{
    contains_text, lemma_lex_total, lemma_lex_transitive, lex_le, text_contains, text_le,
};

verus! {

/// The text of an optional search argument.
pub open spec fn query_view(q: Option<String>) -> Option<Seq<char>> {
    match q {
        Some(s) => Some(s@),
        None => None,
    }
}

/// The field a search looks at: the username when `by_user`, else the service
/// name.
pub open spec fn search_field(e: EntryView, by_user: bool) -> Seq<char> {
    if by_user {
        e.user
    } else {
        e.name
    }
}

/// An entry matches a search when the searched text occurs in its field; an
/// absent search matches every entry.
pub open spec fn entry_matches(e: EntryView, by_user: bool, q: Option<Seq<char>>) -> bool {
    match q {
        Some(n) => contains_text(search_field(e, by_user), n),
        None => true,
    }
}

/// The entries that match a search, in their order.
pub open spec fn select(v: Seq<EntryView>, by_user: bool, q: Option<Seq<char>>) -> Seq<EntryView>
    decreases v.len(),
{
    if v.len() == 0 {
        v
    } else {
        let rest = select(v.drop_last(), by_user, q);
        if entry_matches(v.last(), by_user, q) {
            rest.push(v.last())
        } else {
            rest
        }
    }
}

/// Law: a search keeps exactly the entries that match it, in their order:
/// the list filtered by the search.
pub proof fn lemma_select_is_filter(v: Seq<EntryView>, by_user: bool, q: Option<Seq<char>>)
    ensures
        select(v, by_user, q) == v.filter(|x: EntryView| entry_matches(x, by_user, q)),
    decreases v.len(),
{
    let p = |x: EntryView| entry_matches(x, by_user, q);
    if v.len() == 0 {
        reveal(Seq::filter);
    } else {
        let d = v.drop_last();
        lemma_select_is_filter(d, by_user, q);
        assert(d.push(v.last()) =~= v);
        d.lemma_filter_push(v.last(), p);
    }
}

/// Law: an absent search keeps every entry.
pub proof fn lemma_select_none(v: Seq<EntryView>, by_user: bool)
    ensures
        select(v, by_user, None) == v,
    decreases v.len(),
{
    if v.len() > 0 {
        lemma_select_none(v.drop_last(), by_user);
        assert(v.drop_last().push(v.last()) =~= v);
    }
}

/// Law: an entry is selected exactly when it is in the list and matches.
pub proof fn lemma_select_contains(v: Seq<EntryView>, by_user: bool, q: Option<Seq<char>>, x: EntryView)
    ensures
        select(v, by_user, q).contains(x) <==> (v.contains(x) && entry_matches(x, by_user, q)),
    decreases v.len(),
{
    if v.len() > 0 {
        let d = v.drop_last();
        lemma_select_contains(d, by_user, q, x);
        assert(v =~= d.push(v.last()));
        if v.contains(x) && x != v.last() {
            let k = choose|k: int| 0 <= k < v.len() && v[k] == x;
            assert(d[k] == x);
        }
        if d.contains(x) {
            let k = choose|k: int| 0 <= k < d.len() && d[k] == x;
            assert(v[k] == x);
        }
        let r = select(d, by_user, q);
        if entry_matches(v.last(), by_user, q) {
            if r.contains(x) {
                let k = choose|k: int| 0 <= k < r.len() && r[k] == x;
                assert(r.push(v.last())[k] == x);
            }
            if r.push(v.last()).contains(x) && x != v.last() {
                let k = choose|k: int| 0 <= k < r.len() + 1 && r.push(v.last())[k] == x;
                assert(r[k] == x);
            }
            assert(r.push(v.last())[r.len() as int] == v.last());
        }
    }
}

/// Law: every selected entry matches, and selection never lengthens a list.
pub proof fn lemma_select_matches(v: Seq<EntryView>, by_user: bool, q: Option<Seq<char>>)
    ensures
        select(v, by_user, q).len() <= v.len(),
        forall|i: int|
            0 <= i < select(v, by_user, q).len() ==> entry_matches(
                #[trigger] select(v, by_user, q)[i],
                by_user,
                q,
            ),
    decreases v.len(),
{
    if v.len() > 0 {
        lemma_select_matches(v.drop_last(), by_user, q);
    }
}

/// Law: selecting twice with the same search selects nothing more.
pub proof fn lemma_select_idempotent(v: Seq<EntryView>, by_user: bool, q: Option<Seq<char>>)
    ensures
        select(select(v, by_user, q), by_user, q) == select(v, by_user, q),
    decreases v.len(),
{
    if v.len() > 0 {
        lemma_select_idempotent(v.drop_last(), by_user, q);
        let r = select(v.drop_last(), by_user, q);
        if entry_matches(v.last(), by_user, q) {
            assert(r.push(v.last()).drop_last() =~= r);
        }
    }
}

/// Law: searching by service and then by user selects the same entries as
/// searching by user and then by service.
pub proof fn lemma_select_commute(v: Seq<EntryView>, s: Option<Seq<char>>, u: Option<Seq<char>>)
    ensures
        select(select(v, false, s), true, u) == select(select(v, true, u), false, s),
    decreases v.len(),
{
    if v.len() > 0 {
        let d = v.drop_last();
        let x = v.last();
        lemma_select_commute(d, s, u);
        let a = select(d, false, s);
        let b = select(d, true, u);
        if entry_matches(x, false, s) {
            assert(a.push(x).drop_last() =~= a);
        }
        if entry_matches(x, true, u) {
            assert(b.push(x).drop_last() =~= b);
        }
        if entry_matches(x, false, s) && entry_matches(x, true, u) {
            assert(select(a, true, u).push(x).drop_last() =~= select(a, true, u));
            assert(select(b, false, s).push(x).drop_last() =~= select(b, false, s));
        }
    }
}

/// Keeps the entries whose searched field contains the search text.
fn filter_entries(q: &Option<String>, v: Vec<IndividualService>, by_user: bool) -> (res: Vec<IndividualService>)
    ensures
        entries_view(res@) == select(entries_view(v@), by_user, query_view(*q)),
{
    let ghost qv = query_view(*q);
    match q {
        None => {
            proof {
                lemma_select_none(entries_view(v@), by_user);
            }
            v
        },
        Some(name) => {
            let mut res: Vec<IndividualService> = Vec::new();
            let mut i: usize = 0;
            while i < v.len()
                invariant
                    i <= v@.len(),
                    qv == Some(name@),
                    entries_view(res@) == select(entries_view(v@).take(i as int), by_user, qv),
                decreases v.len() - i,
            {
                let e = &v[i];
                let field = if by_user {
                    &e.service_username
                } else {
                    &e.service_name
                };
                let keep = text_contains(field, name);
                proof {
                    let t = entries_view(v@).take(i + 1);
                    assert(t.drop_last() =~= entries_view(v@).take(i as int));
                    assert(t.last() == e@);
                }
                if keep {
                    res.push(e.duplicate());
                    assert(entries_view(res@) =~= select(entries_view(v@).take(i as int), by_user, qv).push(e@));
                }
                i += 1;
            }
            assert(entries_view(v@).take(i as int) =~= entries_view(v@));
            res
        },
    }
}

/// Filters a vault entry list to those whose service name contains the given string.
pub fn get_service_vec_service(s: &Option<String>, v: Vec<IndividualService>) -> (res: Vec<IndividualService>)
    ensures
        entries_view(res@) == select(entries_view(v@), false, query_view(*s)),
{
    filter_entries(s, v, false)
}

/// Filters a vault entry list to those whose username contains the given string.
pub fn get_service_vec_user(s: &Option<String>, v: Vec<IndividualService>) -> (res: Vec<IndividualService>)
    ensures
        entries_view(res@) == select(entries_view(v@), true, query_view(*s)),
{
    filter_entries(s, v, true)
}


/// Places `x` into a list after the last entry whose service name comes
/// before or equals its own, moving the entries after that one back.
pub open spec fn insert_by_name(s: Seq<EntryView>, x: EntryView) -> Seq<EntryView>
    decreases s.len(),
{
    if s.len() == 0 {
        seq![x]
    } else if lex_le(s.last().name, x.name) {
        s.push(x)
    } else {
        insert_by_name(s.drop_last(), x).push(s.last())
    }
}

/// The entries stably sorted by service name: the order that `sort_by` on
/// the service names gives, with entries of equal names kept in their order.
pub open spec fn sort_by_name(s: Seq<EntryView>) -> Seq<EntryView>
    decreases s.len(),
{
    if s.len() == 0 {
        s
    } else {
        insert_by_name(sort_by_name(s.drop_last()), s.last())
    }
}

/// The entries are in order of service name.
pub open spec fn sorted_by_name(s: Seq<EntryView>) -> bool {
    forall|i: int, j: int| 0 <= i < j < s.len() ==> lex_le(#[trigger] s[i].name, #[trigger] s[j].name)
}

/// Where the scan from the end stops: every entry from `j` on has a name
/// after `x`'s, and the one before `j`, if any, does not.
pub open spec fn insertion_point(s: Seq<EntryView>, x: EntryView, j: int) -> bool {
    &&& 0 <= j <= s.len()
    &&& forall|k: int| j <= k < s.len() ==> !lex_le(#[trigger] s[k].name, x.name)
    &&& j > 0 ==> lex_le(s[j - 1].name, x.name)
}

proof fn lemma_insert_at(s: Seq<EntryView>, x: EntryView, j: int)
    requires
        insertion_point(s, x, j),
    ensures
        insert_by_name(s, x) == s.take(j).push(x) + s.skip(j),
    decreases s.len(),
{
    if s.len() == 0 {
        assert(s.take(j).push(x) + s.skip(j) =~= seq![x]);
    } else if j == s.len() {
        assert(s.take(j).push(x) + s.skip(j) =~= s.push(x));
    } else {
        let d = s.drop_last();
        assert(!lex_le(s[s.len() - 1].name, x.name));
        assert(insertion_point(d, x, j));
        lemma_insert_at(d, x, j);
        assert((d.take(j).push(x) + d.skip(j)).push(s.last()) =~= s.take(j).push(x) + s.skip(j));
    }
}

/// Law: inserting into a sorted list keeps it sorted.
pub proof fn lemma_insert_sorted(s: Seq<EntryView>, x: EntryView)
    requires
        sorted_by_name(s),
    ensures
        sorted_by_name(insert_by_name(s, x)),
        insert_by_name(s, x).to_multiset() == s.to_multiset().insert(x),
    decreases s.len(),
{
    broadcast use vstd::seq_lib::group_to_multiset_ensures;

    if s.len() == 0 {
        assert(seq![x] =~= Seq::<EntryView>::empty().push(x));
    } else if lex_le(s.last().name, x.name) {
        assert forall|i: int, j: int| 0 <= i < j < s.len() + 1 implies lex_le(
            #[trigger] s.push(x)[i].name,
            #[trigger] s.push(x)[j].name,
        ) by {
            if j == s.len() {
                if i < s.len() - 1 {
                    lemma_lex_transitive(s[i].name, s[s.len() - 1].name, x.name);
                }
            }
        }
    } else {
        let d = s.drop_last();
        let l = s.last();
        assert(sorted_by_name(d));
        lemma_insert_sorted(d, x);
        let r = insert_by_name(d, x);
        lemma_lex_total(l.name, x.name);
        assert forall|k: int| 0 <= k < r.len() implies lex_le(#[trigger] r[k].name, l.name) by {
            assert(r.to_multiset().count(r[k]) > 0);
            assert(d.to_multiset().insert(x).count(r[k]) > 0);
            if r[k] != x {
                assert(d.to_multiset().count(r[k]) > 0);
                assert(d.contains(r[k]));
                let m = choose|m: int| 0 <= m < d.len() && d[m] == r[k];
                assert(s[m] == d[m]);
            }
        }
        assert forall|i: int, j: int| 0 <= i < j < r.len() + 1 implies lex_le(
            #[trigger] r.push(l)[i].name,
            #[trigger] r.push(l)[j].name,
        ) by {
            if j == r.len() {
                assert(r.push(l)[i] == r[i]);
            } else {
                assert(r.push(l)[i] == r[i]);
                assert(r.push(l)[j] == r[j]);
            }
        }
        assert(d.push(l) =~= s);
    }
}

/// Law: sorting by name gives a list in order of service name that holds
/// exactly the entries it was given.
pub proof fn lemma_sort_by_name(s: Seq<EntryView>)
    ensures
        sorted_by_name(sort_by_name(s)),
        sort_by_name(s).to_multiset() == s.to_multiset(),
    decreases s.len(),
{
    broadcast use vstd::seq_lib::group_to_multiset_ensures;

    if s.len() > 0 {
        lemma_sort_by_name(s.drop_last());
        lemma_insert_sorted(sort_by_name(s.drop_last()), s.last());
        assert(s.drop_last().push(s.last()) =~= s);
    }
}

/// Law: sorting a list already in order of service name leaves it as it is.
pub proof fn lemma_sort_sorted_unchanged(s: Seq<EntryView>)
    requires
        sorted_by_name(s),
    ensures
        sort_by_name(s) == s,
    decreases s.len(),
{
    if s.len() > 0 {
        let d = s.drop_last();
        assert(sorted_by_name(d));
        lemma_sort_sorted_unchanged(d);
        if d.len() > 0 {
            assert(lex_le(s[d.len() - 1].name, s[d.len() as int].name));
        }
        assert(d.push(s.last()) =~= s);
    }
}

/// Sorts entries by service name, keeping entries with equal names in their
/// order, as `sort_by` comparing the service names does.
pub fn sort_by_service_name(v: Vec<IndividualService>) -> (res: Vec<IndividualService>)
    ensures
        entries_view(res@) == sort_by_name(entries_view(v@)),
{
    let mut res: Vec<IndividualService> = Vec::new();
    let mut i: usize = 0;
    while i < v.len()
        invariant
            i <= v@.len(),
            entries_view(res@) == sort_by_name(entries_view(v@).take(i as int)),
        decreases v.len() - i,
    {
        let x = v[i].duplicate();
        let mut j = res.len();
        while j > 0 && !text_le(&res[j - 1].service_name, &x.service_name)
            invariant
                j <= res@.len(),
                forall|k: int| j <= k < res@.len() ==> !lex_le(#[trigger] res@[k]@.name, x@.name),
            decreases j,
        {
            j -= 1;
        }
        let ghost before = entries_view(res@);
        proof {
            assert(insertion_point(before, x@, j as int));
            lemma_insert_at(before, x@, j as int);
            let t = entries_view(v@).take(i + 1);
            assert(t.drop_last() =~= entries_view(v@).take(i as int));
            assert(t.last() == x@);
        }
        res.insert(j, x);
        assert(entries_view(res@) =~= before.take(j as int).push(x@) + before.skip(j as int));
        i += 1;
    }
    assert(entries_view(v@).take(i as int) =~= entries_view(v@));
    res
}


/// A copy of every entry of a list.
pub fn clone_entries(v: &Vec<IndividualService>) -> (res: Vec<IndividualService>)
    ensures
        entries_view(res@) == entries_view(v@),
{
    let mut res: Vec<IndividualService> = Vec::new();
    let mut i: usize = 0;
    while i < v.len()
        invariant
            i <= v@.len(),
            entries_view(res@) == entries_view(v@).take(i as int),
        decreases v.len() - i,
    {
        let ghost before = res@;
        let d = v[i].duplicate();
        res.push(d);
        assert(res@ == before.push(d));
        assert(entries_view(res@) =~= entries_view(before).push(v@[i as int]@));
        assert(entries_view(v@).take(i + 1) =~= entries_view(v@).take(i as int).push(v@[i as int]@));
        i += 1;
    }
    assert(entries_view(v@).take(i as int) =~= entries_view(v@));
    res
}

/// Whether two entries hold the same four texts.
pub fn same_entry(a: &IndividualService, b: &IndividualService) -> (res: bool)
    ensures
        res == (a@ == b@),
{
    a.service_nonce == b.service_nonce && a.service_name == b.service_name && a.service_username
        == b.service_username && a.service_cipher == b.service_cipher
}

/// An entry matches a search by service and a search by user.
pub open spec fn matches_query(e: EntryView, s: Option<Seq<char>>, u: Option<Seq<char>>) -> bool {
    entry_matches(e, false, s) && entry_matches(e, true, u)
}

/// The entries that do not match a search, in their order.
pub open spec fn drop_matching(v: Seq<EntryView>, s: Option<Seq<char>>, u: Option<Seq<char>>) -> Seq<EntryView>
    decreases v.len(),
{
    if v.len() == 0 {
        v
    } else {
        let rest = drop_matching(v.drop_last(), s, u);
        if matches_query(v.last(), s, u) {
            rest
        } else {
            rest.push(v.last())
        }
    }
}

/// Law: removal keeps exactly the entries that do not match the search.
pub proof fn lemma_drop_matching_contains(v: Seq<EntryView>, s: Option<Seq<char>>, u: Option<Seq<char>>, x: EntryView)
    ensures
        drop_matching(v, s, u).contains(x) <==> (v.contains(x) && !matches_query(x, s, u)),
    decreases v.len(),
{
    if v.len() > 0 {
        let d = v.drop_last();
        lemma_drop_matching_contains(d, s, u, x);
        assert(v =~= d.push(v.last()));
        if v.contains(x) && x != v.last() {
            let k = choose|k: int| 0 <= k < v.len() && v[k] == x;
            assert(d[k] == x);
        }
        if d.contains(x) {
            let k = choose|k: int| 0 <= k < d.len() && d[k] == x;
            assert(v[k] == x);
        }
        let r = drop_matching(d, s, u);
        if !matches_query(v.last(), s, u) {
            if r.contains(x) {
                let k = choose|k: int| 0 <= k < r.len() && r[k] == x;
                assert(r.push(v.last())[k] == x);
            }
            if r.push(v.last()).contains(x) && x != v.last() {
                let k = choose|k: int| 0 <= k < r.len() + 1 && r.push(v.last())[k] == x;
                assert(r[k] == x);
            }
            assert(r.push(v.last())[r.len() as int] == v.last());
        }
    }
}

/// Law: removal keeps exactly the entries that do not match the search, in
/// their order: the list filtered by "does not match".
pub proof fn lemma_drop_matching_is_filter(v: Seq<EntryView>, s: Option<Seq<char>>, u: Option<Seq<char>>)
    ensures
        drop_matching(v, s, u) == v.filter(|x: EntryView| !matches_query(x, s, u)),
    decreases v.len(),
{
    let p = |x: EntryView| !matches_query(x, s, u);
    if v.len() == 0 {
        reveal(Seq::filter);
    } else {
        let d = v.drop_last();
        lemma_drop_matching_is_filter(d, s, u);
        assert(d.push(v.last()) =~= v);
        d.lemma_filter_push(v.last(), p);
    }
}

/// Law: after a removal, the same search finds nothing.
pub proof fn lemma_removed_not_found(v: Seq<EntryView>, s: Option<Seq<char>>, u: Option<Seq<char>>)
    ensures
        select(select(drop_matching(v, s, u), false, s), true, u).len() == 0,
{
    let d = drop_matching(v, s, u);
    let r = select(select(d, false, s), true, u);
    if r.len() > 0 {
        let x = r[0];
        assert(r.contains(x));
        lemma_select_contains(select(d, false, s), true, u, x);
        lemma_select_contains(d, false, s, x);
        lemma_drop_matching_contains(v, s, u, x);
    }
}

/// For the `remove` command: the entries that match the search by service
/// and by user (first), and the entries left once every entry equal to a
/// matched one is taken out (second).
pub fn select_for_removal(whole: &Vec<IndividualService>, s: &Option<String>, u: &Option<String>) -> (res: (Vec<IndividualService>, Vec<IndividualService>))
    ensures
        entries_view(res.0@) == select(select(entries_view(whole@), false, query_view(*s)), true, query_view(*u)),
        entries_view(res.1@) == drop_matching(entries_view(whole@), query_view(*s), query_view(*u)),
{
    let ghost qs = query_view(*s);
    let ghost qu = query_view(*u);
    let ghost w = entries_view(whole@);
    let smaller = get_service_vec_user(u, get_service_vec_service(s, clone_entries(whole)));
    let mut kept: Vec<IndividualService> = Vec::new();
    let mut i: usize = 0;
    while i < whole.len()
        invariant
            i <= whole@.len(),
            w == entries_view(whole@),
            entries_view(smaller@) == select(select(w, false, qs), true, qu),
            entries_view(kept@) == drop_matching(w.take(i as int), qs, qu),
        decreases whole.len() - i,
    {
        let e = &whole[i];
        let mut found = false;
        let mut k: usize = 0;
        while k < smaller.len()
            invariant
                k <= smaller@.len(),
                found <==> exists|m: int| 0 <= m < k && (#[trigger] smaller@[m])@ == e@,
            decreases smaller.len() - k,
        {
            if same_entry(&smaller[k], e) {
                found = true;
            }
            k += 1;
        }
        proof {
            let sv = entries_view(smaller@);
            lemma_select_contains(select(w, false, qs), true, qu, e@);
            lemma_select_contains(w, false, qs, e@);
            assert(w[i as int] == e@);
            assert(w.contains(e@));
            if found {
                let m = choose|m: int| 0 <= m < k && (#[trigger] smaller@[m])@ == e@;
                assert(sv[m] == e@);
            }
            if sv.contains(e@) {
                let m = choose|m: int| 0 <= m < sv.len() && sv[m] == e@;
                assert(smaller@[m]@ == e@);
            }
            assert(found <==> matches_query(e@, qs, qu));
            let t = w.take(i + 1);
            assert(t.drop_last() =~= w.take(i as int));
            assert(t.last() == e@);
        }
        if !found {
            kept.push(e.duplicate());
            assert(entries_view(kept@) =~= drop_matching(w.take(i as int), qs, qu).push(e@));
        }
        i += 1;
    }
    assert(w.take(i as int) =~= w);
    (smaller, kept)
}

/// Appends a new entry to the vault, keeping it sorted by service name.
pub fn add_to_vault(vault: Vec<IndividualService>, entry: IndividualService) -> (res: Vec<IndividualService>)
    ensures
        entries_view(res@) == sort_by_name(entries_view(vault@).push(entry@)),
        sorted_by_name(entries_view(res@)),
        entries_view(res@).to_multiset() == entries_view(vault@).to_multiset().insert(entry@),
{
    let ghost e = entry@;
    let mut v = vault;
    v.push(entry);
    assert(entries_view(v@) =~= entries_view(vault@).push(e));
    proof {
        lemma_sort_by_name(entries_view(v@));
        vstd::seq_lib::to_multiset_build(entries_view(vault@), e);
    }
    sort_by_service_name(v)
}

/// Appends imported entries to the vault, keeping it sorted by service name.
pub fn append_entries(vault: Vec<IndividualService>, new: Vec<IndividualService>) -> (res: Vec<IndividualService>)
    ensures
        entries_view(res@) == sort_by_name(entries_view(vault@) + entries_view(new@)),
        sorted_by_name(entries_view(res@)),
        entries_view(res@).to_multiset() == entries_view(vault@).to_multiset().add(entries_view(new@).to_multiset()),
{
    let mut v = vault;
    let mut n = new;
    let ghost a = entries_view(v@);
    let ghost b = entries_view(n@);
    v.append(&mut n);
    assert(entries_view(v@) =~= a + b);
    proof {
        lemma_sort_by_name(a + b);
        vstd::seq_lib::lemma_multiset_commutative(a, b);
    }
    sort_by_service_name(v)
}


/// A password short enough to encrypt.
pub open spec fn encryptable(p: Seq<char>) -> bool {
    encode_utf8(p).len() <= max_plaintext_bytes()
}

/// A password whose ciphertext, once encrypted, fits in base64 in memory.
pub open spec fn storable(p: Seq<char>) -> bool {
    encryptable(p) ==> b64_len(encode_utf8(p).len() + 16, true) <= usize::MAX
}

/// The entry stores the given service, user and password under `key`: its
/// nonce and ciphertext decrypt back to the password.
pub open spec fn stores(key: Seq<u8>, e: EntryView, name: Seq<char>, user: Seq<char>, pass: Seq<char>) -> bool {
    &&& e.name == name
    &&& e.user == user
    &&& decrypt_defined(key, e.nonce, e.cipher)
    &&& decrypt_outcome(key, e.nonce, e.cipher) == Ok::<Seq<char>, VaultError>(pass)
}

/// Encrypts a password into a new entry for the given service and user
/// (empty when absent), under the base64 key `enc`.
pub fn new_entry(enc: &String, s: Option<String>, u: Option<String>, pass: String) -> (res: Result<IndividualService, VaultError>)
    requires
        key_text_valid(enc@),
        storable(pass@),
    ensures
        res is Ok <==> encryptable(pass@),
        res matches Err(e) ==> e == VaultError::Encryption,
        res matches Ok(e) ==> stores(b64_decode(enc@, true), e@, text_or_empty(s), text_or_empty(u), pass@),
{
    let service_name = match s {
        Some(x) => x,
        None => String::new(),
    };
    let user_name = match u {
        Some(x) => x,
        None => String::new(),
    };
    let ghost p = pass@;
    let key = decode_base64(enc);
    match encrypt(&key, pass) {
        Ok((cipher, nonce)) => {
            proof {
                lemma_decrypt_inverts_encrypt(key@, p, cipher@, nonce@);
            }
            Ok(
                IndividualService {
                    service_nonce: encode_base64(nonce),
                    service_name,
                    service_username: user_name,
                    service_cipher: encode_base64(cipher),
                },
            )
        },
        Err(e) => Err(e),
    }
}

/// The rows of a CSV import whose passwords can be encrypted, in order.
pub open spec fn importable(rows: Seq<CsvView>) -> Seq<CsvView>
    decreases rows.len(),
{
    if rows.len() == 0 {
        rows
    } else {
        let rest = importable(rows.drop_last());
        if encryptable(rows.last().password) {
            rest.push(rows.last())
        } else {
            rest
        }
    }
}

/// The views of CSV rows.
pub open spec fn rows_view(v: Seq<CSVfile>) -> Seq<CsvView> {
    v.map_values(|r: CSVfile| r@)
}

/// Encrypts the rows of a CSV import into entries under the base64 key `enc`:
/// one entry per row whose password can be encrypted, in order, and the
/// number of rows that could not be.
pub fn encrypt_csv_entries(enc: &String, v: Vec<CSVfile>) -> (res: (Vec<IndividualService>, usize))
    requires
        v@.len() > 0 ==> key_text_valid(enc@),
        forall|i: int| 0 <= i < v@.len() ==> storable(#[trigger] v@[i]@.password),
    ensures
        res.0@.len() == importable(rows_view(v@)).len(),
        forall|i: int|
            0 <= i < res.0@.len() ==> {
                let r = #[trigger] importable(rows_view(v@))[i];
                stores(b64_decode(enc@, true), res.0@[i]@, r.service, r.user, r.password)
            },
        res.1 == v@.len() - importable(rows_view(v@)).len(),
{
    let ghost rows = rows_view(v@);
    let ghost key = b64_decode(enc@, true);
    let mut entries: Vec<IndividualService> = Vec::new();
    let mut failed: usize = 0;
    let mut i: usize = 0;
    while i < v.len()
        invariant
            i <= v@.len(),
            rows == rows_view(v@),
            key == b64_decode(enc@, true),
            v@.len() > 0 ==> key_text_valid(enc@),
            forall|j: int| 0 <= j < v@.len() ==> storable(#[trigger] v@[j]@.password),
            entries@.len() == importable(rows.take(i as int)).len(),
            forall|j: int|
                0 <= j < entries@.len() ==> {
                    let r = #[trigger] importable(rows.take(i as int))[j];
                    stores(key, entries@[j]@, r.service, r.user, r.password)
                },
            failed == i - importable(rows.take(i as int)).len(),
        decreases v.len() - i,
    {
        let row = &v[i];
        assert(storable(v@[i as int]@.password));
        let ghost before = importable(rows.take(i as int));
        proof {
            let t = rows.take(i + 1);
            assert(t.drop_last() =~= rows.take(i as int));
            assert(t.last() == row@);
            lemma_importable_len(rows.take(i as int));
        }
        match new_entry(enc, Some(row.service.clone()), Some(row.user.clone()), row.password.clone()) {
            Ok(e) => {
                let ghost old_entries = entries@;
                entries.push(e);
                assert forall|j: int| 0 <= j < entries@.len() implies {
                    let r = #[trigger] importable(rows.take(i + 1))[j];
                    stores(key, entries@[j]@, r.service, r.user, r.password)
                } by {
                    if j < old_entries.len() {
                        assert(importable(rows.take(i + 1))[j] == before[j]);
                        assert(entries@[j] == old_entries[j]);
                    }
                }
            },
            Err(_) => {
                failed += 1;
            },
        }
        i += 1;
    }
    assert(rows.take(i as int) =~= rows);
    (entries, failed)
}

/// Law: an import leaves out a row exactly when its password cannot be
/// encrypted; the rows kept are the rows filtered by that, in order.
pub proof fn lemma_importable_is_filter(rows: Seq<CsvView>)
    ensures
        importable(rows) == rows.filter(|r: CsvView| encode_utf8(r.password).len() <= max_plaintext_bytes()),
    decreases rows.len(),
{
    let p = |r: CsvView| encode_utf8(r.password).len() <= max_plaintext_bytes();
    if rows.len() == 0 {
        reveal(Seq::filter);
    } else {
        let d = rows.drop_last();
        lemma_importable_is_filter(d);
        assert(d.push(rows.last()) =~= rows);
        d.lemma_filter_push(rows.last(), p);
    }
}

proof fn lemma_importable_len(rows: Seq<CsvView>)
    ensures
        importable(rows).len() <= rows.len(),
    decreases rows.len(),
{
    if rows.len() > 0 {
        lemma_importable_len(rows.drop_last());
    }
}

/// Every entry of the list can be given to `decrypt` under `key`.
pub open spec fn all_decryptable(key: Seq<u8>, v: Seq<EntryView>) -> bool {
    forall|i: int| 0 <= i < v.len() ==> decrypt_defined(key, (#[trigger] v[i]).nonce, v[i].cipher)
}

/// The outcomes of decrypting a list of results, as character sequences.
pub open spec fn outcomes_view(v: Seq<Result<String, VaultError>>) -> Seq<Result<Seq<char>, VaultError>> {
    v.map_values(|r: Result<String, VaultError>| result_view(r))
}

/// Decrypting every entry under `key`: one outcome per entry, in order.
pub open spec fn decrypt_all(key: Seq<u8>, v: Seq<EntryView>) -> Seq<Result<Seq<char>, VaultError>> {
    v.map_values(|e: EntryView| decrypt_outcome(key, e.nonce, e.cipher))
}

/// Law: decrypting a list gives one outcome per entry, and outcome `i` is
/// the decryption of entry `i`'s own nonce and ciphertext.
pub proof fn lemma_decrypt_all_per_entry(key: Seq<u8>, v: Seq<EntryView>)
    ensures
        decrypt_all(key, v).len() == v.len(),
        forall|i: int|
            0 <= i < v.len() ==> #[trigger] decrypt_all(key, v)[i] == decrypt_outcome(
                key,
                v[i].nonce,
                v[i].cipher,
            ),
{
}

/// Decrypts the password of every given entry under the base64 key `enc`:
/// outcome `i` is the decryption of entry `i`, its password or an error.
pub fn decrypt_entries(enc: &String, s: &Vec<IndividualService>) -> (res: Vec<Result<String, VaultError>>)
    requires
        s@.len() > 0 ==> key_text_valid(enc@),
        all_decryptable(b64_decode(enc@, true), entries_view(s@)),
    ensures
        outcomes_view(res@) == decrypt_all(b64_decode(enc@, true), entries_view(s@)),
        res@.len() == s@.len(),
        forall|i: int|
            0 <= i < s@.len() ==> result_view(#[trigger] res@[i]) == decrypt_outcome(
                b64_decode(enc@, true),
                s@[i].service_nonce@,
                s@[i].service_cipher@,
            ),
{
    proof {
        lemma_decrypt_all_per_entry(b64_decode(enc@, true), entries_view(s@));
    }
    let ghost w = entries_view(s@);
    if s.len() == 0 {
        assert(decrypt_all(b64_decode(enc@, true), w) =~= Seq::empty());
        assert(outcomes_view(Seq::<Result<String, VaultError>>::empty()) =~= Seq::empty());
        return Vec::new();
    }
    let key = decode_base64(enc);
    let mut res: Vec<Result<String, VaultError>> = Vec::new();
    let mut i: usize = 0;
    while i < s.len()
        invariant
            i <= s@.len(),
            w == entries_view(s@),
            key@ == b64_decode(enc@, true),
            all_decryptable(key@, w),
            outcomes_view(res@) == decrypt_all(key@, w.take(i as int)),
        decreases s.len() - i,
    {
        let e = &s[i];
        assert(w[i as int] == e@);
        assert(decrypt_defined(key@, w[i as int].nonce, w[i as int].cipher));
        let r = decrypt(&key, &e.service_nonce, &e.service_cipher);
        let ghost before = res@;
        res.push(r);
        assert(outcomes_view(res@) =~= outcomes_view(before).push(result_view(r)));
        assert(decrypt_all(key@, w.take(i + 1)) =~= decrypt_all(key@, w.take(i as int)).push(
            decrypt_outcome(key@, e@.nonce, e@.cipher),
        ));
        i += 1;
    }
    assert(w.take(i as int) =~= w);
    assert forall|k: int| 0 <= k < s@.len() implies result_view(#[trigger] res@[k]) == decrypt_outcome(
        b64_decode(enc@, true),
        s@[k].service_nonce@,
        s@[k].service_cipher@,
    ) by {
        assert(outcomes_view(res@)[k] == result_view(res@[k]));
        assert(w[k] == s@[k]@);
        assert(decrypt_all(key@, w)[k] == decrypt_outcome(key@, w[k].nonce, w[k].cipher));
    }
    res
}

/// Decrypts like `decrypt_entries` where it can run, and gives `None` when
/// the key is not the base64 of 32 bytes or some entry cannot be given to
/// `decrypt`.
pub fn try_decrypt_entries(enc: &String, s: &Vec<IndividualService>) -> (res: Option<Vec<Result<String, VaultError>>>)
    ensures
        res is Some <==> ((s@.len() > 0 ==> key_text_valid(enc@)) && all_decryptable(
            b64_decode(enc@, true),
            entries_view(s@),
        )),
        res matches Some(r) ==> outcomes_view(r@) == decrypt_all(b64_decode(enc@, true), entries_view(s@)),
{
    if s.len() == 0 {
        return Some(decrypt_entries(enc, s));
    }
    if !key_text_usable(enc) {
        return None;
    }
    let key = decode_base64(enc);
    let ghost w = entries_view(s@);
    let mut i: usize = 0;
    while i < s.len()
        invariant
            i <= s@.len(),
            w == entries_view(s@),
            key@ == b64_decode(enc@, true),
            forall|j: int| 0 <= j < i ==> decrypt_defined(key@, (#[trigger] w[j]).nonce, w[j].cipher),
        decreases s.len() - i,
    {
        assert(w[i as int] == s@[i as int]@);
        if !decryptable(&key, &s[i].service_nonce, &s[i].service_cipher) {
            return None;
        }
        i += 1;
    }
    Some(decrypt_entries(enc, s))
}

/// Tells whether a base64 key decodes to the 32 bytes of an AES-256 key.
pub fn key_text_usable(enc: &String) -> (res: bool)
    ensures
        res == key_text_valid(enc@),
{
    match try_decode_base64(enc) {
        Some(k) => k.len() == 32,
        None => false,
    }
}

/// Tells whether a password, once encrypted, has a ciphertext whose base64
/// fits in memory.
pub fn storable_text(p: &String) -> (res: bool)
    ensures
        res == storable(p@),
{
    let n: u128 = p.as_str().as_bytes().len() as u128;
    if n > 0x10_0000_0000 {
        return true;
    }
    let m: u128 = n + 16;
    let len: u128 = if m % 3 == 0 {
        4 * (m / 3)
    } else {
        4 * (m / 3) + 4
    };
    len <= usize::MAX as u128
}

/// The vault file of a new user: the authentication hash of the master
/// password under a fresh random salt, the user, and no entries.
pub fn new_user(password: &String, user: String) -> (res: File)
    requires
        encode_utf8(password@).len() <= max_password_bytes(),
    ensures
        encodes_16_bytes(res.salt@),
        salt_hashable(res.salt@),
        res.master_password@ == master_keys(password@, res.salt@).1,
        res.user@ == user@,
        res.vault@.len() == 0,
{
    let salt = gen_salt();
    let (_, auth) = master_hash(password, &salt);
    File { master_password: auth, user, salt, vault: Vec::new() }
}


/// Whether a command needs an open vault: every command but `open` and
/// `close`.
pub fn requires_open_vault(service: &Service) -> (res: bool)
    ensures
        res == (!(*service is Open) && !(*service is Close)),
{
    match service {
        Service::Open => false,
        Service::Close => false,
        _ => true,
    }
}

/// Where the password (or passwords) of an `add` come from.
#[derive(Debug, Clone, Copy, PartialEq, Eq, Structural)]
pub enum AddSource {
    /// A CSV file of entries.
    CsvFile,
    /// A randomly generated password.
    Generated,
    /// The text in the clipboard.
    Clipboard,
    /// A password typed at a prompt.
    Prompt,
}

/// How `add` gets its password: a file wins over generation, generation over
/// the clipboard, and without any of them the user is prompted.
pub fn add_source(file: &Option<String>, generate: bool, from_clipboard: bool) -> (res: AddSource)
    ensures
        res == if file is Some {
            AddSource::CsvFile
        } else if generate {
            AddSource::Generated
        } else if from_clipboard {
            AddSource::Clipboard
        } else {
            AddSource::Prompt
        },
{
    if file.is_some() {
        AddSource::CsvFile
    } else if generate {
        AddSource::Generated
    } else if from_clipboard {
        AddSource::Clipboard
    } else {
        AddSource::Prompt
    }
}

/// What `get` does with the entries its search matched.
#[derive(Debug, Clone, Copy, PartialEq, Eq, Structural)]
pub enum GetPlan {
    /// Exactly one matched: copy its password.
    CopyOnly,
    /// Several matched: list them and let the user choose one.
    ListAndChoose,
    /// None matched: list them (an empty list) and stop.
    ListOnly,
}

/// The plan of `get` for the number of matched entries.
pub fn get_plan(matched: usize) -> (res: GetPlan)
    ensures
        res == if matched == 1 {
            GetPlan::CopyOnly
        } else if matched == 0 {
            GetPlan::ListOnly
        } else {
            GetPlan::ListAndChoose
        },
{
    if matched == 1 {
        GetPlan::CopyOnly
    } else if matched == 0 {
        GetPlan::ListOnly
    } else {
        GetPlan::ListAndChoose
    }
}

/// The entries a `get` or `remove` search matches: those whose service name
/// contains the service search and whose username contains the user search.
pub fn search_entries(vault: Vec<IndividualService>, s: &Option<String>, u: &Option<String>) -> (res: Vec<IndividualService>)
    ensures
        entries_view(res@) == select(select(entries_view(vault@), false, query_view(*s)), true, query_view(*u)),
{
    get_service_vec_user(u, get_service_vec_service(s, vault))
}

} // verus!
