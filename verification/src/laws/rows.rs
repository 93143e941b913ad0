//! The rows of an image, in terms of its texts and of its file.

use vstd::prelude::*;

use crate::index::{self, PayloadModel, RowModel};
use crate::json::{self, JsonTree};
use crate::laws::texts;
use crate::lenient;
use crate::lists;
use crate::model::{self, FileMeta};
use crate::rounding;
use crate::text;

verus! {

/// A row that a key pin can select and that sorts by its value.
pub open spec fn named_row(path: Seq<char>, key: Seq<char>, value: Seq<char>) -> RowModel {
    RowModel { path, key, value, is_direct: true, sort_key: None }
}

/// Whether a word is a name, an equals sign and a value: the sign stands in it,
/// and not in front.
pub open spec fn pairs_up(word: Seq<char>) -> bool {
    word.contains('=') && word[0] != '='
}

proof fn pairs_have_a_sign(word: Seq<char>)
    ensures
        index::is_pair(word) <==> pairs_up(word),
        pairs_up(word) ==> ({
            let row = index::pair_row(Seq::empty(), word);
            &&& row.key.len() > 0
            &&& !row.key.contains('=')
            &&& row.key + seq!['='] + row.value == word
        }),
    decreases word.len(),
{
    if word.contains('=') {
        let at = first_sign(word);
        let before = word.take(at);
        let after = word.skip(at + 1);
        texts::the_first_place_has_none_before(before, '=', after);
        assert(word =~= before.push('=') + after);
        assert(before + seq!['='] + after =~= word);
        if word[0] == '=' {
            assert(at == 0);
        } else {
            assert(at > 0);
        }
    } else {
        texts::the_first_place_has_none_before(word, '=', Seq::empty());
    }
}

proof fn first_sign(word: Seq<char>) -> (at: int)
    requires
        word.contains('='),
    ensures
        0 <= at < word.len(),
        word[at] == '=',
        !word.take(at).contains('='),
        word[0] == '=' ==> at == 0,
    decreases word.len(),
{
    if word[0] == '=' {
        0
    } else {
        let rest = word.drop_first();
        assert(rest.contains('=')) by {
            let i = choose|i: int| 0 <= i < word.len() && word[i] == '=';
            assert(rest[i - 1] == '=');
        }
        let at = first_sign(rest) + 1;
        assert(!word.take(at).contains('=')) by {
            if word.take(at).contains('=') {
                let i = choose|i: int| 0 <= i < at && word.take(at)[i] == '=';
                assert(rest.take(at - 1)[i - 1] == '=');
            }
        }
        at
    }
}

/// A pair becomes one row: what stands before the first equals sign names all
/// that stands behind it, whatever that holds.
pub proof fn a_pair_becomes_one_row(keyword: Seq<char>, key: Seq<char>, value: Seq<char>)
    requires
        key.len() > 0,
        !key.contains('='),
        texts::solid(key),
        texts::solid(value),
    ensures
        index::flat_rows(keyword, PayloadModel::Plain(key + seq!['='] + value)) == seq![
            named_row(keyword + seq!['.'] + key, key, value),
        ],
{
    let word = key + seq!['='] + value;
    assert(texts::solid(word)) by {
        assert forall|i: int| 0 <= i < word.len() implies !text::is_white(#[trigger] word[i]) by {
            if i < key.len() {
                assert(word[i] == key[i]);
            } else if i > key.len() {
                assert(word[i] == value[i - key.len() - 1]);
            }
        }
    }
    texts::words_come_one_by_one(Seq::empty(), word, Seq::empty());
    assert(Seq::<char>::empty() + word + Seq::<char>::empty() =~= word);
    assert(text::words(Seq::<char>::empty()) == Seq::<Seq<char>>::empty());
    let words = text::words(word);
    assert(words =~= seq![word]);
    texts::the_first_place_has_none_before(key, '=', value);
    assert(key.push('=') + value =~= word);
    assert(word.take(key.len() as int) =~= key);
    assert(word.skip(key.len() as int + 1) =~= value);
    assert(index::is_pair(words[0]));
    assert(words.drop_last() =~= Seq::empty());
    assert(index::pair_rows(keyword, words.drop_last()) =~= Seq::empty());
    texts::segments_are_joined_by_a_dot(keyword, key);
    assert(index::flat_rows(keyword, PayloadModel::Plain(word)) =~= seq![
        named_row(keyword + seq!['.'] + key, key, value),
    ]);
}

proof fn pair_rows_follow_the_words(keyword: Seq<char>, words: Seq<Seq<char>>)
    ensures
        ({
            let rows = index::pair_rows(keyword, words);
            let found = words.filter(|word: Seq<char>| pairs_up(word));
            &&& rows.len() == found.len()
            &&& forall|i: int|
                0 <= i < rows.len() ==> {
                    let row = #[trigger] rows[i];
                    &&& row.key.len() > 0
                    &&& !row.key.contains('=')
                    &&& row.key + seq!['='] + row.value == found[i]
                    &&& row == named_row(keyword + seq!['.'] + row.key, row.key, row.value)
                }
        }),
    decreases words.len(),
{
    reveal(Seq::filter);
    if words.len() > 0 {
        pair_rows_follow_the_words(keyword, words.drop_last());
        pairs_have_a_sign(words.last());
        texts::segments_are_joined_by_a_dot(
            keyword,
            index::pair_row(keyword, words.last()).key,
        );
    }
}

/// A plain text gives one row for each of its pairs, in order, and name, sign and
/// value of a row are the pair again. Unless the text is nothing but pairs, one
/// more row holds all of it under the keyword.
pub proof fn a_plain_text_gives_its_pairs(keyword: Seq<char>, body: Seq<char>)
    ensures
        ({
            let rows = index::flat_rows(keyword, PayloadModel::Plain(body));
            let words = text::words(body);
            let found = words.filter(|word: Seq<char>| pairs_up(word));
            let only = found.len() == words.len() && words.len() > 0;
            &&& rows.len() == found.len() + if only {
                0int
            } else {
                1int
            }
            &&& !only ==> rows.last() == named_row(keyword, keyword, body)
            &&& forall|i: int|
                0 <= i < found.len() ==> {
                    let row = #[trigger] rows[i];
                    &&& row.key.len() > 0
                    &&& !row.key.contains('=')
                    &&& row.key + seq!['='] + row.value == found[i]
                    &&& row == named_row(keyword + seq!['.'] + row.key, row.key, row.value)
                }
        }),
{
    let words = text::words(body);
    let pair = |word: Seq<char>| pairs_up(word);
    pair_rows_follow_the_words(keyword, words);
    assert forall|i: int| 0 <= i < words.len() implies index::is_pair(#[trigger] words[i])
        == pairs_up(words[i]) by {
        pairs_have_a_sign(words[i]);
    }
    everything_passes_or_not(words, pair);
    let rows = index::flat_rows(keyword, PayloadModel::Plain(body));
    let first = index::pair_rows(keyword, words);
    assert(forall|i: int| 0 <= i < first.len() ==> #[trigger] rows[i] == first[i]);
}

proof fn everything_passes_or_not<T>(list: Seq<T>, passes: spec_fn(T) -> bool)
    ensures
        list.filter(passes).len() <= list.len(),
        list.filter(passes).len() == list.len() <==> (forall|i: int|
            0 <= i < list.len() ==> passes(#[trigger] list[i])),
    decreases list.len(),
{
    reveal(Seq::filter);
    if list.len() > 0 {
        let fewer = list.drop_last();
        everything_passes_or_not(fewer, passes);
        assert(forall|i: int| 0 <= i < fewer.len() ==> #[trigger] fewer[i] == list[i]);
        if forall|i: int| 0 <= i < list.len() ==> passes(#[trigger] list[i]) {
            assert(passes(list[list.len() - 1]));
            assert forall|i: int| 0 <= i < fewer.len() implies passes(#[trigger] fewer[i]) by {
                assert(passes(list[i]));
            }
        }
        if list.filter(passes).len() == list.len() {
            assert(passes(list.last()));
            assert forall|i: int| 0 <= i < list.len() implies passes(#[trigger] list[i]) by {
                if i < fewer.len() {
                    assert(passes(fewer[i]));
                }
            }
        }
    }
}

/// Pairs written with white space between them give one row each, in order,
/// with their names and their whole values.
pub proof fn pairs_are_found_again(
    keyword: Seq<char>,
    keys: Seq<Seq<char>>,
    values: Seq<Seq<char>>,
    gaps: Seq<Seq<char>>,
)
    requires
        keys.len() > 0,
        values.len() == keys.len(),
        forall|i: int|
            0 <= i < keys.len() ==> (#[trigger] keys[i]).len() > 0 && !keys[i].contains('='),
        texts::can_be_told_apart(
            Seq::new(keys.len(), |i: int| keys[i] + seq!['='] + values[i]),
            gaps,
        ),
    ensures
        ({
            let words = Seq::new(keys.len(), |i: int| keys[i] + seq!['='] + values[i]);
            index::flat_rows(keyword, PayloadModel::Plain(texts::spelled(words, gaps)))
        }) == Seq::new(
            keys.len(),
            |i: int| named_row(keyword + seq!['.'] + keys[i], keys[i], values[i]),
        ),
{
    let words = Seq::new(keys.len(), |i: int| keys[i] + seq!['='] + values[i]);
    let body = texts::spelled(words, gaps);
    let pair = |word: Seq<char>| pairs_up(word);
    texts::words_are_found_again(words, gaps);
    a_plain_text_gives_its_pairs(keyword, body);
    assert forall|i: int| 0 <= i < words.len() implies pair(#[trigger] words[i]) by {
        assert(keys[i].len() > 0);
        assert(words[i][keys[i].len() as int] == '=');
        assert(words[i][0] == keys[i][0]);
        assert(keys[i].contains(keys[i][0]));
    }
    lists::picked_everything(words, pair);
    texts::picking_is_filtering(words, pair);
    let rows = index::flat_rows(keyword, PayloadModel::Plain(body));
    let wanted = Seq::new(
        keys.len(),
        |i: int| named_row(keyword + seq!['.'] + keys[i], keys[i], values[i]),
    );
    assert forall|i: int| 0 <= i < rows.len() implies rows[i] == #[trigger] wanted[i] by {
        let row = rows[i];
        assert(!keys[i].contains('='));
        assert(row.key + seq!['='] + row.value == words[i]);
        assert(words[i] == keys[i] + seq!['='] + values[i]);
        one_way_to_split(row.key, row.value, keys[i], values[i]);
    }
    assert(rows =~= wanted);
}

proof fn one_way_to_split(a: Seq<char>, x: Seq<char>, b: Seq<char>, y: Seq<char>)
    requires
        !a.contains('='),
        !b.contains('='),
        a + seq!['='] + x == b + seq!['='] + y,
    ensures
        a == b,
        x == y,
{
    texts::the_first_place_has_none_before(a, '=', x);
    texts::the_first_place_has_none_before(b, '=', y);
    let word = a + seq!['='] + x;
    assert(a.push('=') + x =~= word);
    assert(b.push('=') + y =~= word);
    assert(a =~= word.take(a.len() as int));
    assert(b =~= word.take(b.len() as int));
    assert(x =~= word.skip(a.len() as int + 1));
    assert(y =~= word.skip(b.len() as int + 1));
}

// ---------------------------------------------------------------------------
// JSON
// ---------------------------------------------------------------------------

/// A value that is neither list nor object is shown as it is: texts without
/// quotes, numbers as they are written, the rest by its JSON name.
pub proof fn values_are_shown_as_they_are(number: Seq<char>, text: Seq<char>)
    ensures
        json::leaf_text(JsonTree::Null) == "null"@,
        json::leaf_text(JsonTree::Bool(true)) == "true"@,
        json::leaf_text(JsonTree::Bool(false)) == "false"@,
        json::leaf_text(JsonTree::Number(number)) == number,
        json::leaf_text(JsonTree::Text(text)) == text,
{
}

/// An object has the rows of its entries, one entry after the other. An entry
/// that is a value is one row named by its key, with the key behind the path of
/// the object; one that holds more has its rows below that path.
pub proof fn an_object_has_the_rows_of_its_entries(
    path: Seq<char>,
    key: Seq<char>,
    entries: Seq<(Seq<char>, JsonTree)>,
    name: Seq<char>,
    value: JsonTree,
    direct: bool,
)
    ensures
        index::json_rows(path, key, JsonTree::Object(Seq::empty()), direct) == Seq::<
            RowModel,
        >::empty(),
        ({
            let child = path + seq!['.'] + name;
            index::json_rows(path, key, JsonTree::Object(entries.push((name, value))), direct)
                == index::json_rows(path, key, JsonTree::Object(entries), direct) + match value {
                JsonTree::Null => seq![named_row(child, name, "null"@)],
                JsonTree::Bool(yes) => seq![
                    named_row(
                        child,
                        name,
                        if yes {
                            "true"@
                        } else {
                            "false"@
                        },
                    ),
                ],
                JsonTree::Number(number) => seq![named_row(child, name, number)],
                JsonTree::Text(text) => seq![named_row(child, name, text)],
                _ => index::json_rows(child, name, value, true),
            }
        }),
{
    let more = entries.push((name, value));
    texts::segments_are_joined_by_a_dot(path, name);
    fewer_entries(path, entries, more, entries.len());
    assert(more[entries.len() as int] == (name, value));
    reveal_with_fuel(index::json_rows, 2);
    reveal_with_fuel(index::entry_rows, 2);
    assert(index::entry_rows(path, more, more.len()) == index::entry_rows(path, more, entries.len())
        + index::json_rows(text::dotted(path, name), name, value, true));
}

proof fn fewer_entries(
    path: Seq<char>,
    few: Seq<(Seq<char>, JsonTree)>,
    many: Seq<(Seq<char>, JsonTree)>,
    count: nat,
)
    requires
        count <= few.len() <= many.len(),
        forall|i: int| 0 <= i < few.len() ==> few[i] == #[trigger] many[i],
    ensures
        index::entry_rows(path, few, count) == index::entry_rows(path, many, count),
    decreases count,
{
    if count > 0 {
        fewer_entries(path, few, many, (count - 1) as nat);
        assert(few[count - 1] == many[count - 1]);
    }
}

/// A list has the rows of its elements, one after the other. An element that is
/// a value is one row that keeps the nearest name, with the element's place
/// behind the path of the list, and that no key pin selects; one that holds more
/// has its rows below that path.
pub proof fn a_list_has_the_rows_of_its_elements(
    path: Seq<char>,
    key: Seq<char>,
    items: Seq<JsonTree>,
    value: JsonTree,
    direct: bool,
)
    ensures
        index::json_rows(path, key, JsonTree::List(Seq::empty()), direct) == Seq::<
            RowModel,
        >::empty(),
        ({
            let child = path + seq!['.'] + text::decimal(items.len());
            let leaf = |shown: Seq<char>|
                RowModel { path: child, key, value: shown, is_direct: false, sort_key: None };
            index::json_rows(path, key, JsonTree::List(items.push(value)), direct)
                == index::json_rows(path, key, JsonTree::List(items), direct) + match value {
                JsonTree::Null => seq![leaf("null"@)],
                JsonTree::Bool(yes) => seq![
                    leaf(
                        if yes {
                            "true"@
                        } else {
                            "false"@
                        },
                    ),
                ],
                JsonTree::Number(number) => seq![leaf(number)],
                JsonTree::Text(text) => seq![leaf(text)],
                _ => index::json_rows(child, key, value, false),
            }
        }),
{
    let more = items.push(value);
    texts::segments_are_joined_by_a_dot(path, text::decimal(items.len()));
    fewer_items(path, key, items, more, items.len());
    assert(more[items.len() as int] == value);
    reveal_with_fuel(index::json_rows, 2);
    reveal_with_fuel(index::item_rows, 2);
    assert(index::item_rows(path, key, more, more.len()) == index::item_rows(
        path,
        key,
        more,
        items.len(),
    ) + index::json_rows(text::dotted(path, text::decimal(items.len())), key, value, false));
}

proof fn fewer_items(
    path: Seq<char>,
    key: Seq<char>,
    few: Seq<JsonTree>,
    many: Seq<JsonTree>,
    count: nat,
)
    requires
        count <= few.len() <= many.len(),
        forall|i: int| 0 <= i < few.len() ==> few[i] == #[trigger] many[i],
    ensures
        index::item_rows(path, key, few, count) == index::item_rows(path, key, many, count),
    decreases count,
{
    if count > 0 {
        fewer_items(path, key, few, many, (count - 1) as nat);
        assert(few[count - 1] == many[count - 1]);
    }
}

/// A JSON chunk has the rows of its document below the chunk's keyword.
pub proof fn a_json_chunk_has_the_rows_of_its_document(keyword: Seq<char>, tree: JsonTree)
    ensures
        index::flat_rows(keyword, PayloadModel::Json(tree)) == index::json_rows(
            keyword,
            keyword,
            tree,
            true,
        ),
{
}

/// A text is a document where it parses to an object or a list, as it stands or
/// with its bare tokens replaced, and plain text otherwise.
pub proof fn what_a_text_is(body: Seq<char>)
    ensures
        match json::parsed_json(body) {
            Some(JsonTree::Object(entries)) => index::payload_of(body) == PayloadModel::Json(
                JsonTree::Object(entries),
            ),
            Some(JsonTree::List(items)) => index::payload_of(body) == PayloadModel::Json(
                JsonTree::List(items),
            ),
            Some(_) => index::payload_of(body) == PayloadModel::Plain(body),
            None => match lenient::sanitized(body) {
                Some(cleaned) => match json::parsed_json(cleaned) {
                    Some(JsonTree::Object(entries)) => index::payload_of(body)
                        == PayloadModel::Json(JsonTree::Object(entries)),
                    Some(JsonTree::List(items)) => index::payload_of(body) == PayloadModel::Json(
                        JsonTree::List(items),
                    ),
                    _ => index::payload_of(body) == PayloadModel::Plain(body),
                },
                None => index::payload_of(body) == PayloadModel::Plain(body),
            },
        },
{
}

// ---------------------------------------------------------------------------
// Files
// ---------------------------------------------------------------------------

/// A row about the file: it sorts by a number.
pub open spec fn about_the_file(key: Seq<char>, value: Seq<char>, sort_key: int) -> RowModel {
    RowModel {
        path: "file"@ + seq!['.'] + key,
        key,
        value,
        is_direct: true,
        sort_key: Some(sort_key),
    }
}

/// The rows about a file say its size, its width, its height and both, then when
/// it was made and when it was changed, as far as that is known.
pub proof fn file_rows_say_what_the_file_is(meta: FileMeta)
    ensures
        ({
            let rows = model::file_rows_of(
                meta.size,
                meta.width,
                meta.height,
                meta.created,
                meta.modified,
            );
            let (w, h) = (text::decimal(meta.width as nat), text::decimal(meta.height as nat));
            let made = if meta.created is Some {
                1int
            } else {
                0int
            };
            &&& rows.len() == 4 + made + if meta.modified is Some {
                1int
            } else {
                0int
            }
            &&& rows[0] == about_the_file(
                "size"@,
                model::shown_size(meta.size as nat),
                model::as_double(meta.size as int),
            )
            &&& rows[1] == about_the_file("width"@, w, meta.width as int)
            &&& rows[2] == about_the_file("height"@, h, meta.height as int)
            &&& rows[3] == about_the_file(
                "dimensions"@,
                w + seq!['×'] + h,
                model::as_double(meta.width * meta.height),
            )
            &&& meta.created matches Some(stamp) ==> rows[4] == about_the_file(
                "created"@,
                stamp.text@,
                model::as_double(stamp.epoch as int),
            )
            &&& meta.modified matches Some(stamp) ==> rows[4 + made] == about_the_file(
                "modified"@,
                stamp.text@,
                model::as_double(stamp.epoch as int),
            )
        }),
{
    let rows = model::file_rows_of(
        meta.size,
        meta.width,
        meta.height,
        meta.created,
        meta.modified,
    );
    let (w, h) = (text::decimal(meta.width as nat), text::decimal(meta.height as nat));
    assert(w.push('×') + h =~= w + seq!['×'] + h);
    texts::segments_are_joined_by_a_dot("file"@, "size"@);
    texts::segments_are_joined_by_a_dot("file"@, "width"@);
    texts::segments_are_joined_by_a_dot("file"@, "height"@);
    texts::segments_are_joined_by_a_dot("file"@, "dimensions"@);
    texts::segments_are_joined_by_a_dot("file"@, "created"@);
    texts::segments_are_joined_by_a_dot("file"@, "modified"@);
}

/// A sort key is the number itself as long as a double can hold it, and never
/// changes the order of two numbers.
pub proof fn sort_keys_keep_the_order(a: int, b: int)
    requires
        a <= b,
    ensures
        model::as_double(a) <= model::as_double(b),
        -9_007_199_254_740_992 < a < 9_007_199_254_740_992 ==> model::as_double(a) == a,
{
    if a >= 0 {
        rounding::nearest_double_is_monotone(a as nat, b as nat);
        rounding::nearest_double_is_near(a as nat);
    } else {
        rounding::nearest_double_is_near((-a) as nat);
        if b < 0 {
            rounding::nearest_double_is_monotone((-b) as nat, (-a) as nat);
        }
    }
}

/// A size is shown in bytes below one kilobyte, rounded to whole kilobytes below
/// one megabyte and to tenths of a megabyte from there on, ties going to the even
/// number. Sizes that no double holds exactly are left out.
pub proof fn sizes_are_rounded(bytes: nat) -> (rounded: nat)
    requires
        bytes < 9_007_199_254_740_992,
    ensures
        bytes < 1024 ==> model::shown_size(bytes) == text::decimal(bytes) + " B"@,
        1024 <= bytes < 1_048_576 ==> {
            &&& model::shown_size(bytes) == text::decimal(rounded) + " KB"@
            &&& -512 <= rounded * 1024 - bytes <= 512
            &&& rounded * 1024 - bytes == 512 || rounded * 1024 - bytes == -512 ==> rounded % 2
                == 0
        },
        1_048_576 <= bytes ==> {
            &&& model::shown_size(bytes) == text::decimal(rounded / 10) + seq!['.']
                + text::decimal(rounded % 10) + " MB"@
            &&& -524_288 <= rounded * 1_048_576 - 10 * bytes <= 524_288
            &&& rounded * 1_048_576 - 10 * bytes == 524_288 || rounded * 1_048_576 - 10 * bytes
                == -524_288 ==> rounded % 2 == 0
        },
{
    rounding::nearest_double_is_near(bytes);
    if bytes < 1024 {
        bytes
    } else if bytes < 1_048_576 {
        rounding::half_even(bytes, 1024)
    } else {
        let tenths = rounding::half_even(10 * bytes, 0x10_0000);
        assert(text::decimal(tenths % 10) =~= seq![text::digit(tenths % 10)]);
        assert(text::decimal(tenths / 10) + seq!['.', text::digit(tenths % 10)] + " MB"@
            =~= text::decimal(tenths / 10) + seq!['.'] + text::decimal(tenths % 10) + " MB"@);
        tenths
    }
}

/// The rows of an image are those about the file, then those of its chunks, one
/// chunk after the other.
pub proof fn an_image_has_the_rows_of_its_parts(
    meta: FileMeta,
    chunks: Seq<(Seq<char>, Seq<char>)>,
    keyword: Seq<char>,
    body: Seq<char>,
)
    ensures
        model::rows_of_image(meta, Seq::empty()) == model::file_rows_of(
            meta.size,
            meta.width,
            meta.height,
            meta.created,
            meta.modified,
        ),
        model::rows_of_image(meta, chunks.push((keyword, body))) == model::rows_of_image(
            meta,
            chunks,
        ) + index::flat_rows(keyword, index::payload_of(body)),
{
    let of_file = model::file_rows_of(
        meta.size,
        meta.width,
        meta.height,
        meta.created,
        meta.modified,
    );
    let more = chunks.push((keyword, body));
    assert(model::rows_of_chunks(Seq::empty()) == Seq::<RowModel>::empty());
    assert(of_file + Seq::<RowModel>::empty() =~= of_file);
    assert(more.drop_last() =~= chunks);
    assert(of_file + (model::rows_of_chunks(chunks) + index::flat_rows(
        keyword,
        index::payload_of(body),
    )) =~= of_file + model::rows_of_chunks(chunks) + index::flat_rows(
        keyword,
        index::payload_of(body),
    ));
}

} // verus!
