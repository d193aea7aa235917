use vstd::prelude::*;
use super::models::Rating;
use crate::text::{
    lemma_trimmed_idempotent, push_str, strings_view, to_uppercase, trim, trimmed, unicode_uppercase,
};

verus! {

/// A tag as stored: trimmed, then uppercased.
pub open spec fn prepared_tag(tag: Seq<char>) -> Seq<char> {
    unicode_uppercase(trimmed(tag))
}

/// Normalizes a tag (trim + uppercase) so reads and writes match.
pub fn prepare_tag(tag_name: String) -> (r: String)
    ensures
        r@ == prepared_tag(tag_name@),
{
    let t = trim(tag_name.as_str());
    to_uppercase(t.as_str())
}

/// White space around a tag never changes it: a tag and its trimmed text
/// prepare to the same stored tag.
pub proof fn lemma_prepared_tag_ignores_padding(tag: Seq<char>)
    ensures
        prepared_tag(trimmed(tag)) == prepared_tag(tag),
{
    lemma_trimmed_idempotent(tag);
}

/// Whether a rating counts as a successful recall (hard, good or easy).
pub open spec fn is_recall(rating: Rating) -> bool {
    rating != Rating::Again
}

/// Increments the rep counter on any successful recall (Hard, Good, or Easy).
pub fn update_reps(rating: Rating, current: u32) -> (r: u32)
    requires
        is_recall(rating) ==> current < u32::MAX,
    ensures
        r == if is_recall(rating) { current + 1 } else { current as int },
{
    match rating {
        Rating::Hard | Rating::Good | Rating::Easy => current + 1,
        Rating::Again => current,
    }
}

/// Increments the lapse counter when a learned item is forgotten.
/// Only `Again` is a forgetting event; Hard is a difficult-but-successful recall.
/// Items still in the learning phase don't accrue lapses.
pub fn update_lapses(rating: Rating, current: u32, is_learned: bool) -> (r: u32)
    requires
        is_learned && rating == Rating::Again ==> current < u32::MAX,
    ensures
        r == if is_learned && rating == Rating::Again { current + 1 } else { current as int },
{
    if is_learned && matches!(rating, Rating::Again) {
        current + 1
    } else {
        current
    }
}

/// An item is considered learned once it has been successfully recalled at least once.
pub fn is_learned(reps: u32, _lapses: u32) -> (b: bool)
    ensures
        b == (reps > 0),
{
    reps > 0
}

/// A rating moves exactly one of the two counters, and only forward: a recall
/// adds a rep, forgetting a learned item adds a lapse, forgetting an item that
/// was never recalled changes nothing.
pub proof fn lemma_rating_counters(rating: Rating, reps: u32, lapses: u32)
    requires
        reps < u32::MAX,
        lapses < u32::MAX,
    ensures
        ({
            let learned = reps > 0;
            let new_reps = if is_recall(rating) { reps + 1 } else { reps as int };
            let new_lapses = if learned && rating == Rating::Again { lapses + 1 } else { lapses as int };
            &&& reps <= new_reps <= reps + 1
            &&& lapses <= new_lapses <= lapses + 1
            &&& (new_reps == reps + 1) != (new_lapses == lapses + 1) || (!learned && rating == Rating::Again)
            &&& (new_reps == reps + 1 ==> new_reps > 0)
        }),
{
}

/// Whole days between the last review and `now` (rounded toward zero, never
/// negative), as `u32`; 0 for an item never reviewed.
pub open spec fn days_since(last_reviewed_at: Option<i64>, now: i64) -> u32 {
    match last_reviewed_at {
        Some(reviewed) => {
            if now - reviewed <= 0 {
                0
            } else {
                ((now - reviewed) / 86400) as u32
            }
        },
        None => 0,
    }
}

/// Whole days since an item was last reviewed (seconds since the epoch).
pub fn days_elapsed(last_reviewed_at: Option<i64>, now: i64) -> (d: u32)
    ensures
        d == days_since(last_reviewed_at, now),
{
    match last_reviewed_at {
        Some(reviewed) => {
            let diff: i128 = now as i128 - reviewed as i128;
            if diff <= 0 {
                0
            } else {
                (diff / 86400) as u32
            }
        },
        None => 0,
    }
}

/// A value bound to a `?` of a query.
#[derive(Debug, Clone, PartialEq, Eq)]
pub enum SqlParam {
    Int(i64),
    Text(String),
}

/// The plain-value picture of a bound value.
pub enum SqlParamModel {
    Int(i64),
    Text(Seq<char>),
}

impl View for SqlParam {
    type V = SqlParamModel;

    open spec fn view(&self) -> SqlParamModel {
        match self {
            SqlParam::Int(v) => SqlParamModel::Int(*v),
            SqlParam::Text(s) => SqlParamModel::Text(s@),
        }
    }
}

pub open spec fn params_view(ps: Seq<SqlParam>) -> Seq<SqlParamModel> {
    ps.map_values(|p: SqlParam| p@)
}

proof fn lemma_params_view_push(ps: Seq<SqlParam>, p: SqlParam)
    ensures
        params_view(ps.push(p)) == params_view(ps).push(p@),
{
    assert(params_view(ps.push(p)) =~= params_view(ps).push(p@));
}

/// A query text with the values for its placeholders, in order.
pub struct PracticeQuery {
    pub sql: String,
    pub params: Vec<SqlParam>,
}

/// `n` placeholders separated by commas: `?, ?, ?`.
pub open spec fn placeholders(n: nat) -> Seq<char>
    decreases n,
{
    if n == 0 {
        seq![]
    } else if n == 1 {
        "?"@
    } else {
        placeholders((n - 1) as nat) + ", ?"@
    }
}

pub open spec fn category_clause(n: nat) -> Seq<char> {
    "i.category_id IN ("@ + placeholders(n) + ")"@
}

pub open spec fn tag_clause(n: nat) -> Seq<char> {
    "i.category_id IN (SELECT category_id FROM category_tag_link WHERE tag_name IN ("@
        + placeholders(n) + "))"@
}

/// The filter part: items of the `nc` given categories or of categories with
/// one of the `nt` given tags; nothing when neither is given.
pub open spec fn where_part(nc: nat, nt: nat) -> Seq<char> {
    if nc > 0 && nt > 0 {
        " WHERE "@ + category_clause(nc) + " OR "@ + tag_clause(nt)
    } else if nc > 0 {
        " WHERE "@ + category_clause(nc)
    } else if nt > 0 {
        " WHERE "@ + tag_clause(nt)
    } else {
        seq![]
    }
}

pub open spec fn select_part() -> Seq<char> {
    "SELECT i.id, i.front FROM item i JOIN item_state s ON s.item_id = i.id"@
}

/// Never-reviewed items first, then the most overdue, at most the limit.
pub open spec fn order_part() -> Seq<char> {
    " ORDER BY CASE WHEN s.stability IS NULL THEN 0 ELSE 1 END ASC, CAST(? - COALESCE(s.last_reviewed_at, 0) AS REAL) / (COALESCE(s.stability, 1.0) * 86400.0) DESC LIMIT ?"@
}

/// The query that selects practice items, for `nc` categories and `nt` tags.
pub open spec fn practice_sql(nc: nat, nt: nat) -> Seq<char> {
    select_part() + where_part(nc, nt) + order_part()
}

/// The ids given, none when absent.
pub open spec fn given_ids(ids: Option<Vec<i64>>) -> Seq<i64> {
    match ids {
        Some(v) => v@,
        None => seq![],
    }
}

/// The tag names given, none when absent.
pub open spec fn given_tags(tags: Option<Vec<String>>) -> Seq<Seq<char>> {
    match tags {
        Some(v) => strings_view(v@),
        None => seq![],
    }
}

pub open spec fn int_params(ids: Seq<i64>) -> Seq<SqlParamModel> {
    ids.map_values(|v: i64| SqlParamModel::Int(v))
}

pub open spec fn tag_params(tags: Seq<Seq<char>>) -> Seq<SqlParamModel> {
    tags.map_values(|t: Seq<char>| SqlParamModel::Text(prepared_tag(t)))
}

fn push_placeholders(sql: &mut String, n: usize)
    ensures
        final(sql)@ == old(sql)@ + placeholders(n as nat),
{
    let ghost start = sql@;
    let mut i: usize = 0;
    while i < n
        invariant
            i <= n,
            sql@ == start + placeholders(i as nat),
        decreases n - i,
    {
        if i == 0 {
            push_str(sql, "?");
        } else {
            push_str(sql, ", ?");
        }
        i = i + 1;
        assert(sql@ =~= start + placeholders(i as nat));
    }
}

/// The query and values that select up to `limit` items to practise at time
/// `now`: never-reviewed first, then most overdue; `category_ids` and
/// `tag_names` (tags prepared as stored) are combined with OR, and either may
/// be `None` or empty.
pub fn select_practice_items_query(
    limit: u8,
    category_ids: Option<Vec<i64>>,
    tag_names: Option<Vec<String>>,
    now: i64,
) -> (q: PracticeQuery)
    ensures
        ({
            let ids = given_ids(category_ids);
            let tags = given_tags(tag_names);
            &&& q.sql@ == practice_sql(ids.len(), tags.len())
            &&& params_view(q.params@) == int_params(ids) + tag_params(tags) + seq![
                SqlParamModel::Int(now),
                SqlParamModel::Int(limit as i64),
            ]
        }),
{
    let ghost ids0 = given_ids(category_ids);
    let ghost tags0 = given_tags(tag_names);
    let ids: Vec<i64> = match category_ids {
        Some(v) => v,
        None => Vec::new(),
    };
    let names: Vec<String> = match tag_names {
        Some(v) => v,
        None => Vec::new(),
    };
    let mut params: Vec<SqlParam> = Vec::new();
    let mut i: usize = 0;
    while i < ids.len()
        invariant
            ids@ == ids0,
            i <= ids@.len(),
            params_view(params@) == int_params(ids@.take(i as int)),
        decreases ids@.len() - i,
    {
        let ghost old_params = params@;
        params.push(SqlParam::Int(ids[i]));
        assert(params@ == old_params.push(SqlParam::Int(ids@[i as int])));
        assert(ids@.take(i as int + 1) =~= ids@.take(i as int).push(ids@[i as int]));
        proof {
            lemma_params_view_push(old_params, SqlParam::Int(ids@[i as int]));
            assert(int_params(ids@.take(i as int + 1)) =~= int_params(ids@.take(i as int)).push(
                SqlParamModel::Int(ids@[i as int]),
            ));
        }
        i = i + 1;
        assert(params_view(params@) =~= int_params(ids@.take(i as int)));
    }
    assert(ids@.take(i as int) =~= ids@);
    let mut prepared: Vec<String> = Vec::new();
    let mut names_iter: usize = 0;
    let ghost base = params_view(params@);
    let mut names = names;
    while names_iter < names.len()
        invariant
            strings_view(names@) == tags0,
            names_iter <= names@.len(),
            base == int_params(ids0),
            params_view(params@) == base + tag_params(tags0.take(names_iter as int)),
        decreases names@.len() - names_iter,
    {
        let t = names[names_iter].clone();
        assert(t@ == tags0[names_iter as int]);
        let p = prepare_tag(t);
        let ghost old_params = params@;
        params.push(SqlParam::Text(p));
        assert(params@ == old_params.push(SqlParam::Text(p)));
        assert(tags0.take(names_iter as int + 1) =~= tags0.take(names_iter as int).push(
            tags0[names_iter as int],
        ));
        proof {
            lemma_params_view_push(old_params, SqlParam::Text(p));
            assert(tag_params(tags0.take(names_iter as int + 1)) =~= tag_params(
                tags0.take(names_iter as int),
            ).push(SqlParamModel::Text(prepared_tag(tags0[names_iter as int]))));
        }
        names_iter = names_iter + 1;
        assert(params_view(params@) =~= base + tag_params(tags0.take(names_iter as int)));
    }
    assert(tags0.take(names_iter as int) =~= tags0);
    let nc = ids.len();
    let nt = names.len();
    let mut sql = String::new();
    push_str(&mut sql, "SELECT i.id, i.front FROM item i JOIN item_state s ON s.item_id = i.id");
    let ghost before_where = sql@;
    if nc > 0 || nt > 0 {
        push_str(&mut sql, " WHERE ");
    }
    if nc > 0 {
        push_str(&mut sql, "i.category_id IN (");
        push_placeholders(&mut sql, nc);
        push_str(&mut sql, ")");
    }
    if nc > 0 && nt > 0 {
        push_str(&mut sql, " OR ");
    }
    if nt > 0 {
        push_str(
            &mut sql,
            "i.category_id IN (SELECT category_id FROM category_tag_link WHERE tag_name IN (",
        );
        push_placeholders(&mut sql, nt);
        push_str(&mut sql, "))");
    }
    assert(sql@ =~= before_where + where_part(nc as nat, nt as nat));
    push_str(
        &mut sql,
        " ORDER BY CASE WHEN s.stability IS NULL THEN 0 ELSE 1 END ASC, CAST(? - COALESCE(s.last_reviewed_at, 0) AS REAL) / (COALESCE(s.stability, 1.0) * 86400.0) DESC LIMIT ?",
    );
    let ghost before_tail = params_view(params@);
    params.push(SqlParam::Int(now));
    params.push(SqlParam::Int(limit as i64));
    assert(params_view(params@) =~= before_tail + seq![
        SqlParamModel::Int(now),
        SqlParamModel::Int(limit as i64),
    ]);
    assert(sql@ =~= practice_sql(ids0.len(), tags0.len()));
    PracticeQuery { sql, params }
}

/// The index of the last category with id `id`, if any.
pub open spec fn owner_index(ids: Seq<i64>, id: i64) -> Option<int>
    decreases ids.len(),
{
    if ids.len() == 0 {
        None
    } else if ids.last() == id {
        Some(ids.len() - 1)
    } else {
        owner_index(ids.drop_last(), id)
    }
}

/// The names of the links that belong to the category at index `i`, in link order.
pub open spec fn tags_at(ids: Seq<i64>, links: Seq<(i64, Seq<char>)>, i: int) -> Seq<Seq<char>>
    decreases links.len(),
{
    if links.len() == 0 {
        seq![]
    } else {
        let rest = tags_at(ids, links.drop_last(), i);
        if owner_index(ids, links.last().0) == Some(i) {
            rest.push(links.last().1)
        } else {
            rest
        }
    }
}

pub open spec fn links_view(links: Seq<(i64, String)>) -> Seq<(i64, Seq<char>)> {
    links.map_values(|l: (i64, String)| (l.0, l.1@))
}

fn owner_of(ids: &Vec<i64>, id: i64) -> (r: Option<usize>)
    ensures
        r matches Some(k) ==> k < ids@.len() && owner_index(ids@, id) == Some(k as int),
        r is None ==> owner_index(ids@, id) is None,
{
    let mut k: usize = ids.len();
    assert(ids@.take(k as int) =~= ids@);
    while k > 0
        invariant
            k <= ids@.len(),
            owner_index(ids@, id) == owner_index(ids@.take(k as int), id),
        decreases k,
    {
        let ghost pre = ids@.take(k as int);
        assert(pre.drop_last() =~= ids@.take(k as int - 1));
        if ids[k - 1] == id {
            return Some(k - 1);
        }
        k = k - 1;
    }
    assert(ids@.take(0) =~= Seq::<i64>::empty());
    None
}

/// Groups tag links by category: entry `i` holds, in link order, the tags of
/// the links whose category id is `category_ids[i]` (the last such index when
/// an id repeats); links of unknown categories are dropped.
pub fn group_tags(category_ids: &Vec<i64>, links: Vec<(i64, String)>) -> (groups: Vec<Vec<String>>)
    ensures
        groups@.len() == category_ids@.len(),
        forall|i: int|
            0 <= i < groups@.len() ==> strings_view(#[trigger] groups@[i]@) == tags_at(
                category_ids@,
                links_view(links@),
                i,
            ),
{
    let ghost lv = links_view(links@);
    let mut groups: Vec<Vec<String>> = Vec::new();
    let mut i: usize = 0;
    while i < category_ids.len()
        invariant
            i <= category_ids@.len(),
            groups@.len() == i,
            forall|k: int| 0 <= k < i ==> (#[trigger] groups@[k])@.len() == 0,
        decreases category_ids@.len() - i,
    {
        groups.push(Vec::new());
        i = i + 1;
    }
    let mut j: usize = 0;
    while j < links.len()
        invariant
            j <= links@.len(),
            lv == links_view(links@),
            groups@.len() == category_ids@.len(),
            forall|k: int|
                0 <= k < groups@.len() ==> strings_view(#[trigger] groups@[k]@) == tags_at(
                    category_ids@,
                    lv.take(j as int),
                    k,
                ),
        decreases links@.len() - j,
    {
        let id = links[j].0;
        let name = links[j].1.clone();
        assert(lv[j as int] == (links@[j as int].0, links@[j as int].1@));
        assert(lv.take(j as int + 1).drop_last() =~= lv.take(j as int));
        if let Some(k) = owner_of(category_ids, id) {
            let ghost old_groups = groups@;
            groups[k].push(name);
            assert(groups@[k as int]@ == old_groups[k as int]@.push(name));
            assert(strings_view(groups@[k as int]@) =~= strings_view(old_groups[k as int]@).push(
                name@,
            ));
        }
        j = j + 1;
        assert forall|k: int| 0 <= k < groups@.len() implies strings_view(
            #[trigger] groups@[k]@,
        ) == tags_at(category_ids@, lv.take(j as int), k) by {
            assert(strings_view(groups@[k]@) =~= tags_at(category_ids@, lv.take(j as int), k));
        }
    }
    assert(lv.take(j as int) =~= lv);
    groups
}

} // verus!
