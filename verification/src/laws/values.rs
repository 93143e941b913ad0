//! Values and their fields: what the mathematical values of the library's types
//! say is what stands in the fields, as it stands there.

use vstd::prelude::*;

use crate::cache::{self, CachedChunk, CachedFile, FolderCache};
use crate::chunks::{self, HeaderStep, PngHeader, StepModel, TextChunk, TextParts};
use crate::controls::{Controls, PinRename};
use crate::full;
use crate::icon;
use crate::index::{self, ChunkPayload, MetaRow, PayloadModel};
use crate::json::{Json, JsonTree};
use crate::lightbox::{self, Candidate, StripItem};
use crate::model::{self, FilePath, ParsedChunk};
use crate::pins::{self, Pin};
use crate::text;
use crate::tree::{self, BodyModel, ChunkSection, NodeModel, SectionBody, TreeLeaf, TreeNode};
use crate::viewer::{self, Dropped};

verus! {

/// A header has the dimensions of its fields and its texts in their order.
pub proof fn a_header_says_its_fields(header: PngHeader, i: int)
    ensures
        header@.width == header.width,
        header@.height == header.height,
        header@.chunks.len() == header.text_chunks@.len(),
        0 <= i < header.text_chunks@.len() ==> header@.chunks[i] == (
            header.text_chunks@[i].keyword@,
            header.text_chunks@[i].text@,
        ),
{
}

/// So do lists of texts, a chunk's parts, and the outcome of a reading.
pub proof fn texts_say_their_fields(
    plain: Seq<String>,
    list: Seq<TextChunk>,
    parts: TextParts,
    header: PngHeader,
    reason: String,
    i: int,
)
    ensures
        text::texts(plain).len() == plain.len(),
        0 <= i < plain.len() ==> text::texts(plain)[i] == plain[i]@,
        chunks::chunk_texts(list).len() == list.len(),
        0 <= i < list.len() ==> chunks::chunk_texts(list)[i] == (list[i].keyword@, list[i].text@),
        parts@.keyword == parts.keyword@,
        parts@.body == parts.body@,
        parts@.compressed == parts.compressed,
        chunks::header_result(Ok(header)) == Ok::<chunks::HeaderModel, Seq<char>>(header@),
        chunks::header_result(Err(reason)) == Err::<chunks::HeaderModel, Seq<char>>(reason@),
{
}

/// A request says how much is asked for.
pub proof fn a_request_says_how_much(step: HeaderStep)
    ensures
        step matches HeaderStep::Read(count, reader) ==> step@ == StepModel::Read(
            count as int,
            reader@,
        ),
        step matches HeaderStep::Skip(count, reader) ==> step@ == StepModel::Skip(
            count as int,
            reader@,
        ),
        step matches HeaderStep::Done(Ok(header)) ==> step@ == StepModel::Done(Ok(header@)),
        step matches HeaderStep::Done(Err(reason)) ==> step@ == StepModel::Done(Err(reason@)),
{
}

/// A row says its path, key, value and sort key; so do rows in their order.
pub proof fn a_row_says_its_fields(row: MetaRow, rows: Seq<MetaRow>, some: Seq<&MetaRow>, i: int)
    ensures
        row@.path == row.path@,
        row@.key == row.key@,
        row@.value == row.value@,
        row@.is_direct == row.is_direct,
        row.sort_key is None <==> row@.sort_key is None,
        row.sort_key is Some ==> row@.sort_key == Some(row.sort_key->Some_0 as int),
        row.valid() <==> row.path_lc@ == text::lowered(row.path@) && row.key_lc@ == text::lowered(
            row.key@,
        ) && row.value_lc@ == text::lowered(row.value@),
        index::row_models(rows).len() == rows.len(),
        0 <= i < rows.len() ==> index::row_models(rows)[i] == rows[i]@,
        model::pointed_at(some).len() == some.len(),
        0 <= i < some.len() ==> model::pointed_at(some)[i] == *some[i],
{
}

/// A path says its text, its name and its extension.
pub proof fn a_path_says_its_fields(path: FilePath, paths: Seq<FilePath>, i: int)
    ensures
        path@.text == path.text@,
        path@.file_name == path.file_name@,
        path@.name_bytes == path.name_bytes@,
        path.extension is None <==> path@.extension is None,
        path.extension is Some ==> path@.extension == Some(path.extension->Some_0@),
        model::path_models(paths).len() == paths.len(),
        0 <= i < paths.len() ==> model::path_models(paths)[i] == paths[i]@,
{
}

/// A chunk says its keyword, its size and what it holds.
pub proof fn a_chunk_says_its_fields(chunk: ParsedChunk, list: Seq<ParsedChunk>, i: int)
    ensures
        chunk@.keyword == chunk.keyword@,
        chunk@.byte_len == chunk.byte_len,
        chunk.payload matches ChunkPayload::Json(value) ==> chunk@.payload == PayloadModel::Json(
            value@,
        ),
        chunk.payload matches ChunkPayload::Plain(body) ==> chunk@.payload == PayloadModel::Plain(
            body@,
        ),
        model::chunk_models(list).len() == list.len(),
        0 <= i < list.len() ==> model::chunk_models(list)[i] == list[i]@,
{
}

/// A document says its values, elements and entries.
pub proof fn a_document_says_its_parts(value: Json, i: int)
    ensures
        value is Null ==> value@ == JsonTree::Null,
        value matches Json::Bool(yes) ==> value@ == JsonTree::Bool(yes),
        value matches Json::Number(number) ==> value@ == JsonTree::Number(number@),
        value matches Json::Text(text) ==> value@ == JsonTree::Text(text@),
        value matches Json::List(items) ==> {
            &&& value@ is List
            &&& value@->List_0.len() == items@.len()
            &&& 0 <= i < items@.len() ==> value@->List_0[i] == items@[i]@
        },
        value matches Json::Object(entries) ==> {
            &&& value@ is Object
            &&& value@->Object_0.len() == entries@.len()
            &&& 0 <= i < entries@.len() ==> value@->Object_0[i] == (
                entries@[i].0@,
                entries@[i].1@,
            )
        },
{
}

/// A pin says its pattern, label, mode and copy button.
pub proof fn a_pin_says_its_fields(pin: Pin, list: Seq<Pin>, i: int)
    ensures
        pin@.pattern == pin.pattern@,
        pin.label is None <==> pin@.label is None,
        pin.label is Some ==> pin@.label == Some(pin.label->Some_0@),
        pin@.mode == pin.mode,
        pin@.copy == pin.copy,
        pins::pin_models(list).len() == list.len(),
        0 <= i < list.len() ==> pins::pin_models(list)[i] == list[i]@,
{
}

/// The controls say their fields.
pub proof fn controls_say_their_fields(controls: Controls, rename: PinRename)
    ensures
        controls@.selected == controls.selected,
        controls@.sort == controls.sort,
        controls@.pins == pins::pin_models(controls.pins@),
        controls.rename is None <==> controls@.rename is None,
        controls.rename is Some ==> controls@.rename == Some(controls.rename->Some_0@),
        controls@.needs_refresh == controls.needs_refresh,
        controls.flash is None <==> controls@.flash is None,
        controls.flash is Some ==> controls@.flash == Some(controls.flash->Some_0@),
        controls.pending_copy is None <==> controls@.pending_copy is None,
        controls.pending_copy is Some ==> controls@.pending_copy == Some(
            controls.pending_copy->Some_0@,
        ),
        controls@.force_tree_expanded == controls.force_tree_expanded,
        controls@.settings_open == controls.settings_open,
        rename@.pin_index == rename.pin_index,
        rename@.draft == rename.draft@,
        rename@.needs_focus == rename.needs_focus,
{
}

/// A record says its fields, and a cache its own.
pub proof fn a_record_says_its_fields(
    file: CachedFile,
    cache: FolderCache,
    list: Seq<CachedChunk>,
    i: int,
)
    ensures
        file@.size == file.size,
        file@.modified_epoch == file.modified_epoch,
        file@.width == file.width,
        file@.height == file.height,
        file@.chunks == cache::cached_texts(file.chunks@),
        cache::cached_texts(list).len() == list.len(),
        0 <= i < list.len() ==> cache::cached_texts(list)[i] == (list[i].keyword@, list[i].text@),
        cache@.version == cache.version,
        cache@.folder == cache.folder@,
        cache@.files == cache.files@,
{
}

/// A window's strip says its fields, and so do a size, dropped paths, an icon's
/// images and the values to choose from.
pub proof fn a_strip_says_its_fields(
    item: StripItem,
    strip: Seq<StripItem>,
    size: [u32; 2],
    dropped: Seq<Dropped>,
    images: Seq<(u32, Vec<u8>)>,
    candidates: Seq<Candidate>,
    i: int,
)
    ensures
        item@.label == item.label@,
        item@.shown == item.shown@,
        item@.value == item.value@,
        lightbox::strip_models(strip).len() == strip.len(),
        0 <= i < strip.len() ==> lightbox::strip_models(strip)[i] == strip[i]@,
        full::sides(size) == (size@[0] as nat, size@[1] as nat),
        viewer::dropped_models(dropped).len() == dropped.len(),
        0 <= i < dropped.len() ==> viewer::dropped_models(dropped)[i] == (
            dropped[i].path@,
            dropped[i].is_dir,
        ),
        icon::image_models(images).len() == images.len(),
        0 <= i < images.len() ==> icon::image_models(images)[i] == (images[i].0, images[i].1@),
        lightbox::candidate_models(candidates).len() == candidates.len(),
        0 <= i < candidates.len() ==> lightbox::candidate_models(candidates)[i] == (
            candidates[i].0@,
            candidates[i].1,
            candidates[i].2@,
        ),
{
}

/// A node of the tree says its fields, and a section its own.
pub proof fn a_node_says_its_fields(
    leaf: TreeLeaf,
    node: TreeNode,
    nodes: Seq<TreeNode>,
    section: ChunkSection,
    sections: Seq<ChunkSection>,
    i: int,
)
    ensures
        TreeNode::Leaf(leaf).model() == NodeModel::Leaf(
            leaf.path@,
            leaf.key@,
            leaf.value@,
            leaf.direct,
        ),
        node matches TreeNode::Branch(path, header, children) ==> {
            &&& node.model() is Branch
            &&& node.model()->Branch_0 == path@
            &&& node.model()->Branch_1 == header@
            &&& node.model()->Branch_2.len() == children@.len()
            &&& 0 <= i < children@.len() ==> node.model()->Branch_2[i] == children@[i].model()
        },
        tree::node_models(nodes).len() == nodes.len(),
        0 <= i < nodes.len() ==> tree::node_models(nodes)[i] == nodes[i].model(),
        section@.chunk == section.chunk,
        section@.title == section.title@,
        section@.query == section.query@,
        section@.scroll == section.scroll,
        section.body matches SectionBody::Json(parts) ==> section@.body == BodyModel::Json(
            tree::node_models(parts@),
        ),
        section.body matches SectionBody::Plain(body) ==> section@.body == BodyModel::Plain(
            body@,
        ),
        tree::section_models(sections).len() == sections.len(),
        0 <= i < sections.len() ==> tree::section_models(sections)[i] == sections[i]@,
{
}

} // verus!
