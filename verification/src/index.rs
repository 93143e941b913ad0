//! Flattens chunk text into searchable `path = value` rows.
//!
//! A JSON payload like `{"31": {"inputs": {"seed": 42}}}` under keyword
//! `prompt` becomes one row: path `prompt.31.inputs.seed`, key `seed`,
//! value `42`. Plain-text payloads of `key=value` tokens flatten the same
//! way, so pins and search work identically across metadata styles.

use vstd::prelude::*;

use crate::json::{self, parse_json, Json, JsonTree};
use crate::lenient::{self, replace_nonfinite_tokens};
use crate::text::{self, contains_text, has_char, join_path, lowercase};

verus! {

/// What a chunk's text is: a JSON object or list, or anything else.
#[derive(Debug)]
pub enum ChunkPayload {
    Json(Json),
    Plain(String),
}

/// A [`ChunkPayload`] as a mathematical value.
pub ghost enum PayloadModel {
    Json(JsonTree),
    Plain(Seq<char>),
}

impl View for ChunkPayload {
    type V = PayloadModel;

    open spec fn view(&self) -> PayloadModel {
        match self {
            ChunkPayload::Json(json) => PayloadModel::Json(json@),
            ChunkPayload::Plain(text) => PayloadModel::Plain(text@),
        }
    }
}

/// One searchable value and where it stands.
#[derive(Debug)]
pub struct MetaRow {
    pub path: String,
    pub key: String,
    pub value: String,
    pub path_lc: String,
    pub key_lc: String,
    pub value_lc: String,
    /// True when the leaf sits directly under its own named key. False for
    /// array elements (such as node links like `["123", 0]`), which inherit the
    /// nearest named ancestor as `key` for search purposes but must not satisfy
    /// key pins: a pinned `steps` should never show the linked node id `123`.
    pub is_direct: bool,
    /// Numeric sort override for values whose display text does not sort
    /// correctly (file sizes like "8.1 MB", timestamps).
    pub sort_key: Option<i128>,
}

/// A [`MetaRow`] as a mathematical value.
pub ghost struct RowModel {
    pub path: Seq<char>,
    pub key: Seq<char>,
    pub value: Seq<char>,
    pub is_direct: bool,
    pub sort_key: Option<int>,
}

impl View for MetaRow {
    type V = RowModel;

    open spec fn view(&self) -> RowModel {
        RowModel {
            path: self.path@,
            key: self.key@,
            value: self.value@,
            is_direct: self.is_direct,
            sort_key: match self.sort_key {
                Some(key) => Some(key as int),
                None => None,
            },
        }
    }
}

impl MetaRow {
    /// Whether the lowercase copies belong to the texts.
    pub open spec fn valid(self) -> bool {
        &&& self.path_lc@ == text::lowered(self.path@)
        &&& self.key_lc@ == text::lowered(self.key@)
        &&& self.value_lc@ == text::lowered(self.value@)
    }

    pub fn new(path: String, key: String, value: String, is_direct: bool) -> (row: MetaRow)
        ensures
            row.valid(),
            row@ == plain_row(path@, key@, value@, is_direct),
    {
        let path_lc = lowercase(path.as_str());
        let key_lc = lowercase(key.as_str());
        let value_lc = lowercase(value.as_str());
        MetaRow { path, key, value, path_lc, key_lc, value_lc, is_direct, sort_key: None }
    }

    pub fn with_sort_key(self, sort_key: i128) -> (row: MetaRow)
        ensures
            row@ == (RowModel { sort_key: Some(sort_key as int), ..self@ }),
            row.path_lc == self.path_lc,
            row.key_lc == self.key_lc,
            row.value_lc == self.value_lc,
            row.valid() == self.valid(),
    {
        MetaRow {
            path: self.path,
            key: self.key,
            value: self.value,
            path_lc: self.path_lc,
            key_lc: self.key_lc,
            value_lc: self.value_lc,
            is_direct: self.is_direct,
            sort_key: Some(sort_key),
        }
    }
}

/// A row that sorts by its value.
pub open spec fn plain_row(
    path: Seq<char>,
    key: Seq<char>,
    value: Seq<char>,
    is_direct: bool,
) -> RowModel {
    RowModel { path, key, value, is_direct, sort_key: None }
}

/// Rows as mathematical values.
pub open spec fn row_models(rows: Seq<MetaRow>) -> Seq<RowModel> {
    rows.map_values(|row: MetaRow| row@)
}

/// Whether every row's lowercase copies belong to its texts.
pub open spec fn all_valid(rows: Seq<MetaRow>) -> bool {
    forall|i: int| 0 <= i < rows.len() ==> (#[trigger] rows[i]).valid()
}

// ---------------------------------------------------------------------------
// Search
// ---------------------------------------------------------------------------

/// Whether a leaf answers a query in lower case: a query with a `.` is looked
/// for in the path, any other in the key and in the value.
pub open spec fn leaf_hit(
    path: Seq<char>,
    key: Seq<char>,
    value: Seq<char>,
    query: Seq<char>,
) -> bool {
    if query.contains('.') {
        text::occurs_in(query, text::lowered(path))
    } else {
        text::occurs_in(query, text::lowered(key)) || text::occurs_in(query, text::lowered(value))
    }
}

/// Whether a row answers a query in lower case.
pub open spec fn row_hit(row: RowModel, query: Seq<char>) -> bool {
    leaf_hit(row.path, row.key, row.value, query)
}

/// Whether some row answers a query in lower case.
pub open spec fn any_hit(rows: Seq<RowModel>, query: Seq<char>) -> bool {
    exists|i: int| 0 <= i < rows.len() && row_hit(#[trigger] rows[i], query)
}

/// Whether a row answers a query in lower case, by its lowercase copies.
pub open spec fn row_answers(row: MetaRow, query: Seq<char>) -> bool {
    if query.contains('.') {
        text::occurs_in(query, row.path_lc@)
    } else {
        text::occurs_in(query, row.key_lc@) || text::occurs_in(query, row.value_lc@)
    }
}

/// Search predicate, shared by the image filter and the tree view. A query
/// containing `.` matches against the full dotted path; a bare query matches
/// against the key or the value. Matching the path with bare queries is
/// deliberately avoided: the chunk keyword (`prompt`) prefixes every path, so
/// path matching would make such queries match every row in the chunk.
/// `query` must already be lowercased.
pub fn row_matches(row: &MetaRow, query: &str) -> (hit: bool)
    ensures
        hit == row_answers(*row, query@),
        row.valid() ==> hit == row_hit(row@, query@),
{
    if has_char(query, '.') {
        return contains_text(row.path_lc.as_str(), query);
    }
    contains_text(row.key_lc.as_str(), query) || contains_text(row.value_lc.as_str(), query)
}

/// Leaf-level form of [`row_matches`] for values that are not flattened yet.
pub fn leaf_matches(path: &str, key: &str, value: &str, query: &str) -> (hit: bool)
    ensures
        hit == leaf_hit(path@, key@, value@, query@),
{
    if has_char(query, '.') {
        return contains_text(lowercase(path).as_str(), query);
    }
    contains_text(lowercase(key).as_str(), query) || contains_text(
        lowercase(value).as_str(),
        query,
    )
}

// ---------------------------------------------------------------------------
// Rows of a JSON payload
// ---------------------------------------------------------------------------

/// The rows of a JSON tree found at `path`: one for each leaf, in document
/// order. Object entries extend the path by their key and are named by it;
/// list elements extend it by their index and keep the nearest name.
pub open spec fn json_rows(path: Seq<char>, key: Seq<char>, tree: JsonTree, is_direct: bool) -> Seq<
    RowModel,
>
    decreases tree, 0int, 0nat,
{
    match tree {
        JsonTree::Object(entries) => entry_rows(path, entries, entries.len()),
        JsonTree::List(items) => item_rows(path, key, items, items.len()),
        leaf => seq![plain_row(path, key, json::leaf_text(leaf), is_direct)],
    }
}

/// The rows of an object's first `count` entries.
pub open spec fn entry_rows(
    path: Seq<char>,
    entries: Seq<(Seq<char>, JsonTree)>,
    count: nat,
) -> Seq<RowModel>
    decreases entries, 1int, count,
{
    if count == 0 || count > entries.len() {
        Seq::empty()
    } else {
        let entry = entries[count - 1];
        entry_rows(path, entries, (count - 1) as nat) + json_rows(
            text::dotted(path, entry.0),
            entry.0,
            entry.1,
            true,
        )
    }
}

/// The rows of a list's first `count` elements.
pub open spec fn item_rows(
    path: Seq<char>,
    key: Seq<char>,
    items: Seq<JsonTree>,
    count: nat,
) -> Seq<RowModel>
    decreases items, 1int, count,
{
    if count == 0 || count > items.len() {
        Seq::empty()
    } else {
        item_rows(path, key, items, (count - 1) as nat) + json_rows(
            text::dotted(path, text::decimal((count - 1) as nat)),
            key,
            items[count - 1],
            false,
        )
    }
}

/// Rows taken together answer a query where either part does.
pub proof fn hits_add_up(a: Seq<RowModel>, b: Seq<RowModel>, query: Seq<char>)
    ensures
        any_hit(a + b, query) == (any_hit(a, query) || any_hit(b, query)),
{
    let both = a + b;
    if any_hit(a, query) {
        let i = choose|i: int| 0 <= i < a.len() && row_hit(#[trigger] a[i], query);
        assert(both[i] == a[i]);
    }
    if any_hit(b, query) {
        let i = choose|i: int| 0 <= i < b.len() && row_hit(#[trigger] b[i], query);
        assert(both[a.len() + i] == b[i]);
    }
    if any_hit(both, query) {
        let i = choose|i: int| 0 <= i < both.len() && row_hit(#[trigger] both[i], query);
        if i < a.len() {
            assert(both[i] == a[i]);
        } else {
            assert(both[i] == b[i - a.len()]);
        }
    }
}

/// More rows never lose a hit: an object's or list's rows hold those of its
/// first parts.
proof fn entry_hits_stay(
    path: Seq<char>,
    entries: Seq<(Seq<char>, JsonTree)>,
    few: nat,
    many: nat,
    query: Seq<char>,
)
    requires
        few <= many <= entries.len(),
        any_hit(entry_rows(path, entries, few), query),
    ensures
        any_hit(entry_rows(path, entries, many), query),
    decreases many,
{
    if few < many {
        entry_hits_stay(path, entries, few, (many - 1) as nat, query);
        let entry = entries[many - 1];
        hits_add_up(
            entry_rows(path, entries, (many - 1) as nat),
            json_rows(text::dotted(path, entry.0), entry.0, entry.1, true),
            query,
        );
    }
}

proof fn item_hits_stay(
    path: Seq<char>,
    key: Seq<char>,
    items: Seq<JsonTree>,
    few: nat,
    many: nat,
    query: Seq<char>,
)
    requires
        few <= many <= items.len(),
        any_hit(item_rows(path, key, items, few), query),
    ensures
        any_hit(item_rows(path, key, items, many), query),
    decreases many,
{
    if few < many {
        item_hits_stay(path, key, items, few, (many - 1) as nat, query);
        hits_add_up(
            item_rows(path, key, items, (many - 1) as nat),
            json_rows(
                text::dotted(path, text::decimal((many - 1) as nat)),
                key,
                items[many - 1],
                false,
            ),
            query,
        );
    }
}

proof fn one_row_hit(row: RowModel, query: Seq<char>)
    ensures
        any_hit(seq![row], query) == row_hit(row, query),
{
    let rows = seq![row];
    if row_hit(row, query) {
        assert(row_hit(rows[0], query));
    }
}

/// True when any leaf inside `value` would satisfy [`row_matches`]. Used by
/// the tree view to prune branches with no match while a search is active.
/// `path` and `nearest_key` mirror the naming used by [`flatten`].
pub fn subtree_matches(path: &str, nearest_key: &str, value: &Json, query: &str) -> (hit: bool)
    ensures
        forall|is_direct: bool|
            hit == any_hit(
                #[trigger] json_rows(path@, nearest_key@, value@, is_direct),
                query@,
            ),
    decreases value,
{
    match value {
        Json::Object(entries) => {
            let ghost trees = value@->Object_0;
            for i in 0..entries.len()
                invariant
                    *value == Json::Object(*entries),
                    value@ == JsonTree::Object(trees),
                    trees.len() == entries@.len(),
                    forall|j: int| 0 <= j < trees.len() ==> trees[j] == (
                        (#[trigger] entries@[j]).0@,
                        entries@[j].1@,
                    ),
                    !any_hit(entry_rows(path@, trees, i as nat), query@),
            {
                let child_path = join_path(path, entries[i].0.as_str());
                let hit = subtree_matches(
                    child_path.as_str(),
                    entries[i].0.as_str(),
                    &entries[i].1,
                    query,
                );
                proof {
                    let entry = trees[i as int];
                    assert(entry == (entries@[i as int].0@, entries@[i as int].1@));
                    let rows = json_rows(text::dotted(path@, entry.0), entry.0, entry.1, true);
                    assert(hit == any_hit(rows, query@));
                    hits_add_up(entry_rows(path@, trees, i as nat), rows, query@);
                    assert(entry_rows(path@, trees, (i + 1) as nat) == entry_rows(
                        path@,
                        trees,
                        i as nat,
                    ) + rows);
                    if hit {
                        entry_hits_stay(path@, trees, (i + 1) as nat, trees.len(), query@);
                    }
                }
                if hit {
                    return true;
                }
            }
            false
        },
        Json::List(items) => {
            let ghost trees = value@->List_0;
            for i in 0..items.len()
                invariant
                    *value == Json::List(*items),
                    value@ == JsonTree::List(trees),
                    trees.len() == items@.len(),
                    forall|j: int| 0 <= j < trees.len() ==> trees[j] == (#[trigger] items@[j])@,
                    !any_hit(item_rows(path@, nearest_key@, trees, i as nat), query@),
            {
                let child_path = join_path(path, text::decimal_text(i as u64).as_str());
                let hit = subtree_matches(child_path.as_str(), nearest_key, &items[i], query);
                proof {
                    assert(trees[i as int] == items@[i as int]@);
                    let rows = json_rows(
                        text::dotted(path@, text::decimal(i as nat)),
                        nearest_key@,
                        trees[i as int],
                        false,
                    );
                    assert(hit == any_hit(rows, query@));
                    hits_add_up(item_rows(path@, nearest_key@, trees, i as nat), rows, query@);
                    assert(item_rows(path@, nearest_key@, trees, (i + 1) as nat) == item_rows(
                        path@,
                        nearest_key@,
                        trees,
                        i as nat,
                    ) + rows);
                    if hit {
                        item_hits_stay(
                            path@,
                            nearest_key@,
                            trees,
                            (i + 1) as nat,
                            trees.len(),
                            query@,
                        );
                    }
                }
                if hit {
                    return true;
                }
            }
            false
        },
        leaf => {
            let shown = leaf.leaf();
            let hit = leaf_matches(path, nearest_key, shown.as_str(), query);
            proof {
                assert forall|is_direct: bool|
                    hit == any_hit(
                        #[trigger] json_rows(path@, nearest_key@, value@, is_direct),
                        query@,
                    ) by {
                    one_row_hit(plain_row(path@, nearest_key@, shown@, is_direct), query@);
                }
            }
            hit
        },
    }
}

/// Array elements keep the nearest named ancestor as their key, so searching
/// `text` also finds `prompt.6.inputs.text.0`. Such rows are marked non-direct,
/// so key pins skip them.
fn walk_json(
    path: &str,
    nearest_key: &str,
    value: &Json,
    parent_is_object: bool,
    rows: &mut Vec<MetaRow>,
)
    ensures
        row_models(final(rows)@) == row_models(old(rows)@) + json_rows(
            path@,
            nearest_key@,
            value@,
            parent_is_object,
        ),
        all_valid(old(rows)@) ==> all_valid(final(rows)@),
    decreases value,
{
    match value {
        Json::Object(entries) => {
            let ghost before = rows@;
            let ghost trees = value@->Object_0;
            assert(row_models(before) + entry_rows(path@, trees, 0) =~= row_models(before));
            for i in 0..entries.len()
                invariant
                    *value == Json::Object(*entries),
                    value@ == JsonTree::Object(trees),
                    trees.len() == entries@.len(),
                    forall|j: int| 0 <= j < trees.len() ==> trees[j] == (
                        (#[trigger] entries@[j]).0@,
                        entries@[j].1@,
                    ),
                    row_models(rows@) == row_models(before) + entry_rows(path@, trees, i as nat),
                    all_valid(before) ==> all_valid(rows@),
            {
                let child_path = join_path(path, entries[i].0.as_str());
                walk_json(
                    child_path.as_str(),
                    entries[i].0.as_str(),
                    &entries[i].1,
                    true,
                    rows,
                );
                proof {
                    let entry = trees[i as int];
                    assert(entry == (entries@[i as int].0@, entries@[i as int].1@));
                    let more = json_rows(text::dotted(path@, entry.0), entry.0, entry.1, true);
                    assert(row_models(before) + (entry_rows(path@, trees, i as nat) + more)
                        =~= row_models(before) + entry_rows(path@, trees, i as nat) + more);
                    assert(entry_rows(path@, trees, (i + 1) as nat) == entry_rows(
                        path@,
                        trees,
                        i as nat,
                    ) + more);
                }
            }
        },
        Json::List(items) => {
            let ghost before = rows@;
            let ghost trees = value@->List_0;
            assert(row_models(before) + item_rows(path@, nearest_key@, trees, 0) =~= row_models(
                before,
            ));
            for i in 0..items.len()
                invariant
                    *value == Json::List(*items),
                    value@ == JsonTree::List(trees),
                    trees.len() == items@.len(),
                    forall|j: int| 0 <= j < trees.len() ==> trees[j] == (#[trigger] items@[j])@,
                    row_models(rows@) == row_models(before) + item_rows(
                        path@,
                        nearest_key@,
                        trees,
                        i as nat,
                    ),
                    all_valid(before) ==> all_valid(rows@),
            {
                let child_path = join_path(path, text::decimal_text(i as u64).as_str());
                walk_json(child_path.as_str(), nearest_key, &items[i], false, rows);
                proof {
                    assert(trees[i as int] == items@[i as int]@);
                    let few = item_rows(path@, nearest_key@, trees, i as nat);
                    let more = json_rows(
                        text::dotted(path@, text::decimal(i as nat)),
                        nearest_key@,
                        trees[i as int],
                        false,
                    );
                    assert(row_models(before) + (few + more) =~= row_models(before) + few + more);
                    assert(item_rows(path@, nearest_key@, trees, (i + 1) as nat) == few + more);
                }
            }
        },
        leaf => {
            let ghost before = rows@;
            let row = MetaRow::new(
                path.to_owned(),
                nearest_key.to_owned(),
                leaf.leaf(),
                parent_is_object,
            );
            rows.push(row);
            assert(row_models(rows@) =~= row_models(before) + seq![row@]);
        },
    }
}

// ---------------------------------------------------------------------------
// Rows of a plain-text payload
// ---------------------------------------------------------------------------

/// Whether a word is a pair: something, an `=`, and a value that may be empty.
pub open spec fn is_pair(word: Seq<char>) -> bool {
    0 < text::first_place(word, '=') < word.len()
}

/// The row of a pair: what stands before the first `=` names what stands after.
pub open spec fn pair_row(keyword: Seq<char>, word: Seq<char>) -> RowModel {
    let at = text::first_place(word, '=');
    plain_row(text::dotted(keyword, word.take(at)), word.take(at), word.skip(at + 1), true)
}

/// The rows of the pairs among some words, in order.
pub open spec fn pair_rows(keyword: Seq<char>, words: Seq<Seq<char>>) -> Seq<RowModel>
    decreases words.len(),
{
    if words.len() == 0 {
        Seq::empty()
    } else {
        let before = pair_rows(keyword, words.drop_last());
        if is_pair(words.last()) {
            before.push(pair_row(keyword, words.last()))
        } else {
            before
        }
    }
}

/// Whether a text is nothing but pairs, at least one of them.
pub open spec fn only_pairs(words: Seq<Seq<char>>) -> bool {
    words.len() > 0 && forall|i: int| 0 <= i < words.len() ==> is_pair(#[trigger] words[i])
}

/// The rows of a plain text: one for each `key=value` word, and one for the
/// whole text unless it is nothing but such words.
pub open spec fn plain_rows(keyword: Seq<char>, body: Seq<char>) -> Seq<RowModel> {
    let words = text::words(body);
    if only_pairs(words) {
        pair_rows(keyword, words)
    } else {
        pair_rows(keyword, words).push(plain_row(keyword, keyword, body, true))
    }
}

fn split_pair(word: &str) -> (pair: Option<(String, String)>)
    ensures
        match pair {
            Some((key, value)) => {
                let at = text::first_place(word@, '=');
                is_pair(word@) && key@ == word@.take(at) && value@ == word@.skip(at + 1)
            },
            None => !is_pair(word@),
        },
{
    let chars = text::characters(word);
    let at = text::find_first(&chars, '=');
    if at == 0 || at == chars.len() {
        return None;
    }
    let key = text::text_between(&chars, 0, at);
    let value = text::text_between(&chars, at + 1, chars.len());
    assert(word@.subrange(0, at as int) =~= word@.take(at as int));
    assert(word@.subrange(at + 1, word@.len() as int) =~= word@.skip(at + 1));
    Some((key, value))
}

fn flatten_plain(keyword: &str, body: &str) -> (rows: Vec<MetaRow>)
    ensures
        row_models(rows@) == plain_rows(keyword@, body@),
        all_valid(rows@),
{
    let mut rows: Vec<MetaRow> = Vec::new();
    let mut found_pairs = false;
    let mut saw_non_pair = false;
    let words = text::split_words(body);
    let ghost all = text::texts(words@);
    assert(all.take(0) =~= Seq::empty());
    assert(row_models(rows@) =~= Seq::empty());
    for i in 0..words.len()
        invariant
            all == text::texts(words@),
            row_models(rows@) == pair_rows(keyword@, all.take(i as int)),
            all_valid(rows@),
            found_pairs == exists|j: int| 0 <= j < i && is_pair(#[trigger] all[j]),
            saw_non_pair == exists|j: int| 0 <= j < i && !is_pair(#[trigger] all[j]),
    {
        let ghost before = rows@;
        proof {
            assert(all[i as int] == words@[i as int]@);
            assert(all.take(i + 1).drop_last() =~= all.take(i as int));
            assert(all.take(i + 1).last() == all[i as int]);
        }
        match split_pair(words[i].as_str()) {
            Some((key, value)) => {
                let row = MetaRow::new(join_path(keyword, key.as_str()), key, value, true);
                rows.push(row);
                found_pairs = true;
                assert(row_models(rows@) =~= row_models(before).push(row@));
            },
            None => {
                saw_non_pair = true;
            },
        }
    }
    assert(all.take(words@.len() as int) =~= all);
    if !found_pairs || saw_non_pair {
        let ghost before = rows@;
        let row = MetaRow::new(keyword.to_owned(), keyword.to_owned(), body.to_owned(), true);
        rows.push(row);
        assert(row_models(rows@) =~= row_models(before).push(row@));
        assert(!only_pairs(all)) by {
            if only_pairs(all) {
                assert(is_pair(all[0]));
            }
        }
    } else {
        assert(only_pairs(all));
    }
    rows
}

// ---------------------------------------------------------------------------
// A whole chunk
// ---------------------------------------------------------------------------

/// The document in a text, bare `NaN` and infinities taken for `null`.
pub open spec fn parsed_leniently(body: Seq<char>) -> Option<JsonTree> {
    match json::parsed_json(body) {
        Some(tree) => Some(tree),
        None => match lenient::sanitized(body) {
            Some(cleaned) => json::parsed_json(cleaned),
            None => None,
        },
    }
}

/// What a text is, given the document it parses to: that document where it is
/// an object or a list, else the text itself.
pub open spec fn payload_given(body: Seq<char>, document: Option<JsonTree>) -> PayloadModel {
    match document {
        Some(tree) => if tree is Object || tree is List {
            PayloadModel::Json(tree)
        } else {
            PayloadModel::Plain(body)
        },
        None => PayloadModel::Plain(body),
    }
}

/// What a chunk's text is.
pub open spec fn payload_of(body: Seq<char>) -> PayloadModel {
    payload_given(body, parsed_leniently(body))
}

/// Chooses between the document that a text parses to and the text itself.
pub fn choose_payload(body: &str, document: Option<Json>) -> (payload: ChunkPayload)
    ensures
        payload@ == payload_given(
            body@,
            match document {
                Some(json) => Some(json@),
                None => None,
            },
        ),
{
    match document {
        Some(Json::Object(entries)) => ChunkPayload::Json(Json::Object(entries)),
        Some(Json::List(items)) => ChunkPayload::Json(Json::List(items)),
        _ => ChunkPayload::Plain(body.to_owned()),
    }
}

/// Reads a chunk's text: a JSON object or list where it is one, plain text
/// otherwise.
pub fn parse_payload(body: &str) -> (payload: ChunkPayload)
    ensures
        payload@ == payload_of(body@),
{
    if let Some(json) = parse_json(body) {
        return choose_payload(body, Some(json));
    }
    let document = match replace_nonfinite_tokens(body) {
        Some(cleaned) => parse_json(cleaned.as_str()),
        None => None,
    };
    choose_payload(body, document)
}

/// The rows of a chunk.
pub open spec fn flat_rows(keyword: Seq<char>, payload: PayloadModel) -> Seq<RowModel> {
    match payload {
        PayloadModel::Json(tree) => json_rows(keyword, keyword, tree, true),
        PayloadModel::Plain(body) => plain_rows(keyword, body),
    }
}

/// Flattens a chunk into rows.
pub fn flatten(keyword: &str, payload: &ChunkPayload) -> (rows: Vec<MetaRow>)
    ensures
        row_models(rows@) == flat_rows(keyword@, payload@),
        all_valid(rows@),
{
    match payload {
        ChunkPayload::Json(value) => {
            let mut rows: Vec<MetaRow> = Vec::new();
            walk_json(keyword, keyword, value, true, &mut rows);
            assert(Seq::<RowModel>::empty() + flat_rows(keyword@, payload@) =~= flat_rows(
                keyword@,
                payload@,
            ));
            assert(row_models(Seq::<MetaRow>::empty()) =~= Seq::empty());
            rows
        },
        ChunkPayload::Plain(body) => flatten_plain(keyword, body.as_str()),
    }
}

// ---------------------------------------------------------------------------
// Laws
// ---------------------------------------------------------------------------

/// Every row of a chunk is found under the chunk's keyword: its path is the
/// keyword itself or starts with the keyword and a dot. None has a sort key, which
/// is what tells the rows of the file apart.
pub proof fn rows_stand_under_their_keyword(keyword: Seq<char>, payload: PayloadModel, i: int)
    requires
        0 <= i < flat_rows(keyword, payload).len(),
    ensures
        flat_rows(keyword, payload)[i].path == keyword || keyword.push('.').is_prefix_of(
            flat_rows(keyword, payload)[i].path,
        ),
        flat_rows(keyword, payload)[i].sort_key is None,
{
    match payload {
        PayloadModel::Json(tree) => {
            json_rows_stand_under(keyword, keyword, tree, true, i);
        },
        PayloadModel::Plain(body) => {
            let words = text::words(body);
            if i < pair_rows(keyword, words).len() {
                pair_rows_stand_under(keyword, words, i);
            }
        },
    }
}

proof fn pair_rows_stand_under(keyword: Seq<char>, words: Seq<Seq<char>>, i: int)
    requires
        0 <= i < pair_rows(keyword, words).len(),
    ensures
        keyword.push('.').is_prefix_of(pair_rows(keyword, words)[i].path),
        pair_rows(keyword, words)[i].sort_key is None,
    decreases words.len(),
{
    let before = pair_rows(keyword, words.drop_last());
    if i < before.len() {
        pair_rows_stand_under(keyword, words.drop_last(), i);
    }
}

/// Whether a path is `root` or stands below it.
pub open spec fn at_or_below(path: Seq<char>, root: Seq<char>) -> bool {
    path == root || root.push('.').is_prefix_of(path)
}

proof fn below_a_child(path: Seq<char>, root: Seq<char>, key: Seq<char>)
    requires
        at_or_below(path, text::dotted(root, key)),
    ensures
        at_or_below(path, root),
{
    let child = text::dotted(root, key);
    assert(root.push('.').is_prefix_of(child));
    if path != child {
        assert(child.push('.').is_prefix_of(path));
        assert forall|i: int| 0 <= i < root.len() + 1 implies root.push('.')[i] == path[i] by {
            assert(child.push('.')[i] == path[i]);
        }
    }
}

proof fn json_rows_stand_under(
    path: Seq<char>,
    key: Seq<char>,
    tree: JsonTree,
    is_direct: bool,
    i: int,
)
    requires
        0 <= i < json_rows(path, key, tree, is_direct).len(),
    ensures
        at_or_below(json_rows(path, key, tree, is_direct)[i].path, path),
        json_rows(path, key, tree, is_direct)[i].sort_key is None,
    decreases tree, 0int, 0nat,
{
    match tree {
        JsonTree::Object(entries) => {
            entry_rows_stand_under(path, entries, entries.len(), i);
        },
        JsonTree::List(items) => {
            item_rows_stand_under(path, key, items, items.len(), i);
        },
        _ => {},
    }
}

proof fn entry_rows_stand_under(
    path: Seq<char>,
    entries: Seq<(Seq<char>, JsonTree)>,
    count: nat,
    i: int,
)
    requires
        0 <= i < entry_rows(path, entries, count).len(),
    ensures
        at_or_below(entry_rows(path, entries, count)[i].path, path),
        entry_rows(path, entries, count)[i].sort_key is None,
    decreases entries, 1int, count,
{
    let entry = entries[count - 1];
    let before = entry_rows(path, entries, (count - 1) as nat);
    if i < before.len() {
        entry_rows_stand_under(path, entries, (count - 1) as nat, i);
    } else {
        json_rows_stand_under(
            text::dotted(path, entry.0),
            entry.0,
            entry.1,
            true,
            i - before.len(),
        );
        below_a_child(entry_rows(path, entries, count)[i].path, path, entry.0);
    }
}

proof fn item_rows_stand_under(
    path: Seq<char>,
    key: Seq<char>,
    items: Seq<JsonTree>,
    count: nat,
    i: int,
)
    requires
        0 <= i < item_rows(path, key, items, count).len(),
    ensures
        at_or_below(item_rows(path, key, items, count)[i].path, path),
        item_rows(path, key, items, count)[i].sort_key is None,
    decreases items, 1int, count,
{
    let name = text::decimal((count - 1) as nat);
    let before = item_rows(path, key, items, (count - 1) as nat);
    if i < before.len() {
        item_rows_stand_under(path, key, items, (count - 1) as nat, i);
    } else {
        json_rows_stand_under(
            text::dotted(path, name),
            key,
            items[count - 1],
            false,
            i - before.len(),
        );
        below_a_child(item_rows(path, key, items, count)[i].path, path, name);
    }
}

/// Search takes no notice of whether a row is direct.
pub proof fn search_ignores_directness(
    path: Seq<char>,
    key: Seq<char>,
    tree: JsonTree,
    query: Seq<char>,
)
    ensures
        any_hit(json_rows(path, key, tree, true), query) == any_hit(
            json_rows(path, key, tree, false),
            query,
        ),
{
    match tree {
        JsonTree::Object(_) => {},
        JsonTree::List(_) => {},
        leaf => {
            one_row_hit(plain_row(path, key, json::leaf_text(leaf), true), query);
            one_row_hit(plain_row(path, key, json::leaf_text(leaf), false), query);
        },
    }
}

/// No word of a plain text is lost to search: a word that is no pair stands in
/// the row of the whole text.
pub proof fn no_word_is_lost(keyword: Seq<char>, body: Seq<char>, i: int)
    requires
        0 <= i < text::words(body).len(),
        !is_pair(text::words(body)[i]),
    ensures
        flat_rows(keyword, PayloadModel::Plain(body)).last() == plain_row(
            keyword,
            keyword,
            body,
            true,
        ),
{
    assert(!only_pairs(text::words(body)));
}

/// Whether a path ends in a dot and the key.
pub open spec fn ends_in(path: Seq<char>, key: Seq<char>) -> bool {
    path.len() > key.len() && path[path.len() - key.len() - 1] == '.' && path.skip(
        path.len() - key.len(),
    ) == key
}

proof fn a_child_ends_in_its_key(path: Seq<char>, key: Seq<char>)
    ensures
        ends_in(text::dotted(path, key), key),
{
    let child = text::dotted(path, key);
    assert(child.skip(child.len() - key.len()) =~= key);
}

/// A row that counts as direct stands under its own key: its path ends in a dot
/// and that key.
pub proof fn direct_rows_end_in_their_key(keyword: Seq<char>, tree: JsonTree, i: int)
    requires
        tree is Object || tree is List,
        0 <= i < flat_rows(keyword, PayloadModel::Json(tree)).len(),
        flat_rows(keyword, PayloadModel::Json(tree))[i].is_direct,
    ensures
        ends_in(
            flat_rows(keyword, PayloadModel::Json(tree))[i].path,
            flat_rows(keyword, PayloadModel::Json(tree))[i].key,
        ),
{
    match tree {
        JsonTree::Object(entries) => {
            direct_entry_rows(keyword, entries, entries.len(), i);
        },
        JsonTree::List(items) => {
            direct_item_rows(keyword, keyword, items, items.len(), i);
        },
        _ => {},
    }
}

proof fn direct_rows(path: Seq<char>, key: Seq<char>, tree: JsonTree, is_direct: bool, i: int)
    requires
        is_direct ==> ends_in(path, key),
        0 <= i < json_rows(path, key, tree, is_direct).len(),
        json_rows(path, key, tree, is_direct)[i].is_direct,
    ensures
        ends_in(
            json_rows(path, key, tree, is_direct)[i].path,
            json_rows(path, key, tree, is_direct)[i].key,
        ),
    decreases tree, 0int, 0nat,
{
    match tree {
        JsonTree::Object(entries) => {
            direct_entry_rows(path, entries, entries.len(), i);
        },
        JsonTree::List(items) => {
            direct_item_rows(path, key, items, items.len(), i);
        },
        _ => {},
    }
}

proof fn direct_entry_rows(
    path: Seq<char>,
    entries: Seq<(Seq<char>, JsonTree)>,
    count: nat,
    i: int,
)
    requires
        0 <= i < entry_rows(path, entries, count).len(),
        entry_rows(path, entries, count)[i].is_direct,
    ensures
        ends_in(
            entry_rows(path, entries, count)[i].path,
            entry_rows(path, entries, count)[i].key,
        ),
    decreases entries, 1int, count,
{
    let entry = entries[count - 1];
    let before = entry_rows(path, entries, (count - 1) as nat);
    if i < before.len() {
        direct_entry_rows(path, entries, (count - 1) as nat, i);
    } else {
        a_child_ends_in_its_key(path, entry.0);
        direct_rows(text::dotted(path, entry.0), entry.0, entry.1, true, i - before.len());
    }
}

proof fn direct_item_rows(
    path: Seq<char>,
    key: Seq<char>,
    items: Seq<JsonTree>,
    count: nat,
    i: int,
)
    requires
        0 <= i < item_rows(path, key, items, count).len(),
        item_rows(path, key, items, count)[i].is_direct,
    ensures
        ends_in(
            item_rows(path, key, items, count)[i].path,
            item_rows(path, key, items, count)[i].key,
        ),
    decreases items, 1int, count,
{
    let name = text::decimal((count - 1) as nat);
    let before = item_rows(path, key, items, (count - 1) as nat);
    if i < before.len() {
        direct_item_rows(path, key, items, (count - 1) as nat, i);
    } else {
        direct_rows(text::dotted(path, name), key, items[count - 1], false, i - before.len());
    }
}

} // verus!
