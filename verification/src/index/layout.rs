//! Where the binary sidecar holds what.

use crate::index::bytes::{
    le_bytes, le_value, lemma_le_bytes_len, number_at, optional_at, optional_bytes, text_bytes,
    text_fits, too_large, word_list_bytes, words_bytes,
};
use crate::index::codec::{
    decoded, header_bytes, kind_of_tag, kind_tag, levels_fault, lists_bytes, magic, metric_of_tag,
    metric_tag, node_bytes, node_fits, nodes_bytes, record_fault, sidecar_bytes, sidecar_fits,
};
use crate::index::codec_facts::{holds_at, lemma_split};
use crate::index::error::{ErrorModel, IndexErrorKind};
use crate::index::graph::{IndexKind, NodeModel, RecordModel, SidecarModel};
use crate::json::json_rewritten;
use crate::text::decimal;
use crate::types::DistanceMetric;
use vstd::prelude::*;
use vstd::utf8::encode_utf8;

verus! {

/// The number that four bytes at a position stand for, lowest first.
pub open spec fn word_from(bytes: Seq<u8>, at: int) -> int {
    bytes[at] + 0x100 * bytes[at + 1] + 0x1_0000 * bytes[at + 2] + 0x100_0000 * bytes[at + 3]
}

/// Numbers stand lowest byte first.
pub proof fn law_numbers_stand_lowest_byte_first(value: nat)
    ensures
        le_bytes(value, 1) == seq![(value % 0x100) as u8],
        le_bytes(value, 2) == seq![(value % 0x100) as u8, (value / 0x100 % 0x100) as u8],
        le_bytes(value, 4) == seq![
            (value % 0x100) as u8,
            (value / 0x100 % 0x100) as u8,
            (value / 0x1_0000 % 0x100) as u8,
            (value / 0x100_0000 % 0x100) as u8,
        ],
        le_bytes(value, 8) == le_bytes(value, 4) + seq![
            (value / 0x1_0000_0000 % 0x100) as u8,
            (value / 0x100_0000_0000 % 0x100) as u8,
            (value / 0x1_0000_0000_0000 % 0x100) as u8,
            (value / 0x100_0000_0000_0000 % 0x100) as u8,
        ],
{
    reveal_with_fuel(le_bytes, 9);
    let second = value / 256;
    let third = second / 256;
    let fourth = third / 256;
    let fifth = fourth / 256;
    let sixth = fifth / 256;
    let seventh = sixth / 256;
    let eighth = seventh / 256;
    assert(third == value / 0x1_0000);
    assert(fourth == value / 0x100_0000);
    assert(fifth == value / 0x1_0000_0000);
    assert(sixth == value / 0x100_0000_0000);
    assert(seventh == value / 0x1_0000_0000_0000);
    assert(eighth == value / 0x100_0000_0000_0000);
}

proof fn lemma_word(bytes: Seq<u8>, at: int, value: nat)
    requires
        0 <= at,
        value <= u32::MAX,
        holds_at(bytes, at as nat, le_bytes(value, 4)),
    ensures
        at + 4 <= bytes.len(),
        word_from(bytes, at) == value,
{
    law_numbers_stand_lowest_byte_first(value);
    let piece = le_bytes(value, 4);
    let held = bytes.subrange(at, at + 4);
    assert(held == piece);
    assert(held[0] == piece[0] && held[1] == piece[1] && held[2] == piece[2] && held[3]
        == piece[3]);
    assert(bytes[at] == held[0] && bytes[at + 1] == held[1] && bytes[at + 2] == held[2]
        && bytes[at + 3] == held[3]);
}

proof fn lemma_byte(bytes: Seq<u8>, at: int, value: nat)
    requires
        0 <= at,
        value < 0x100,
        holds_at(bytes, at as nat, le_bytes(value, 1)),
    ensures
        at < bytes.len(),
        bytes[at] == value,
{
    law_numbers_stand_lowest_byte_first(value);
    let held = bytes.subrange(at, at + 1);
    assert(held[0] == le_bytes(value, 1)[0]);
}

/// A text stands as the number of its UTF-8 bytes, in four bytes, and these bytes.
pub proof fn law_texts_stand_behind_their_lengths(text: Seq<char>)
    requires
        text_fits(text),
    ensures
        text_bytes(text).len() == 4 + encode_utf8(text).len(),
        word_from(text_bytes(text), 0) == encode_utf8(text).len(),
        text_bytes(text).skip(4) == encode_utf8(text),
{
    let bytes = text_bytes(text);
    let size = le_bytes(encode_utf8(text).len(), 4);
    assert(bytes.subrange(0, bytes.len() as int) =~= bytes);
    lemma_le_bytes_len(encode_utf8(text).len(), 4);
    lemma_split(bytes, 0, size, encode_utf8(text));
    lemma_word(bytes, 0, encode_utf8(text).len());
    assert(bytes.skip(4) =~= encode_utf8(text));
}

/// A list of numbers stands as their count and the numbers in order, four bytes for each.
pub proof fn law_lists_stand_behind_their_counts(words: Seq<u32>)
    requires
        words.len() <= u32::MAX,
    ensures
        word_list_bytes(words).len() == 4 + 4 * words.len(),
        word_from(word_list_bytes(words), 0) == words.len(),
        forall|i: int|
            0 <= i < words.len() ==> word_from(word_list_bytes(words), 4 + 4 * i)
                == #[trigger] words[i],
{
    let bytes = word_list_bytes(words);
    let size = le_bytes(words.len(), 4);
    assert(bytes.subrange(0, bytes.len() as int) =~= bytes);
    lemma_le_bytes_len(words.len(), 4);
    lemma_split(bytes, 0, size, words_bytes(words));
    lemma_word(bytes, 0, words.len());
    lemma_words(words);
    assert forall|i: int| 0 <= i < words.len() implies word_from(
        word_list_bytes(words),
        4 + 4 * i,
    ) == #[trigger] words[i] by {
        assert(word_from(words_bytes(words), 4 * i) == words[i]);
        assert(bytes[4 + 4 * i] == words_bytes(words)[4 * i]);
        assert(bytes[4 + 4 * i + 1] == words_bytes(words)[4 * i + 1]);
        assert(bytes[4 + 4 * i + 2] == words_bytes(words)[4 * i + 2]);
        assert(bytes[4 + 4 * i + 3] == words_bytes(words)[4 * i + 3]);
    }
}

proof fn lemma_words(words: Seq<u32>)
    ensures
        words_bytes(words).len() == 4 * words.len(),
        forall|i: int|
            0 <= i < words.len() ==> word_from(words_bytes(words), 4 * i) == #[trigger] words[i],
    decreases words.len(),
{
    if words.len() > 0 {
        let shorter = words.drop_last();
        let before = words_bytes(shorter);
        let bytes = words_bytes(words);
        let added = le_bytes(words.last() as nat, 4);
        lemma_words(shorter);
        lemma_le_bytes_len(words.last() as nat, 4);
        assert(bytes == before + added);
        assert forall|i: int| 0 <= i < words.len() implies word_from(bytes, 4 * i)
            == #[trigger] words[i] by {
            if i < shorter.len() {
                assert(shorter[i] == words[i]);
                assert(word_from(before, 4 * i) == words[i]);
                assert(bytes[4 * i] == before[4 * i]);
                assert(bytes[4 * i + 1] == before[4 * i + 1]);
                assert(bytes[4 * i + 2] == before[4 * i + 2]);
                assert(bytes[4 * i + 3] == before[4 * i + 3]);
            } else {
                assert(bytes.subrange(4 * i, 4 * i + 4) =~= added);
                assert(holds_at(bytes, (4 * i) as nat, added));
                lemma_word(bytes, 4 * i, words.last() as nat);
            }
        }
    }
}

proof fn lemma_split_thrice(bytes: Seq<u8>, front: Seq<u8>, x: Seq<u8>, y: Seq<u8>, z: Seq<u8>)
    requires
        holds_at(bytes, 0, front + x + y + z),
    ensures
        holds_at(bytes, 0, front),
        holds_at(bytes, front.len(), x),
        holds_at(bytes, front.len() + x.len(), y),
        holds_at(bytes, front.len() + x.len() + y.len(), z),
{
    lemma_split(bytes, 0, front + x + y, z);
    lemma_split(bytes, 0, front + x, y);
    lemma_split(bytes, 0, front, x);
}

proof fn lemma_start(bytes: Seq<u8>, sidecar: SidecarModel)
    requires
        text_fits(sidecar.segment_id),
        holds_at(
            bytes,
            0,
            magic() + le_bytes(sidecar.version as nat, 2) + text_bytes(sidecar.segment_id),
        ),
    ensures
        bytes[0] == 0x4c && bytes[1] == 0x50 && bytes[2] == 0x48 && bytes[3] == 0x31,
        bytes[4] + 0x100 * bytes[5] == sidecar.version,
        word_from(bytes, 6) == encode_utf8(sidecar.segment_id).len(),
        bytes.subrange(10, 10 + encode_utf8(sidecar.segment_id).len() as int) == encode_utf8(
            sidecar.segment_id,
        ),
{
    let id = encode_utf8(sidecar.segment_id);
    let version = le_bytes(sidecar.version as nat, 2);
    lemma_le_bytes_len(sidecar.version as nat, 2);
    lemma_le_bytes_len(id.len(), 4);
    lemma_split(bytes, 0, magic() + version, text_bytes(sidecar.segment_id));
    lemma_split(bytes, 0, magic(), version);
    let start = bytes.subrange(0, 4);
    assert(start == magic());
    assert(start[0] == bytes[0] && start[1] == bytes[1] && start[2] == bytes[2] && start[3]
        == bytes[3]);
    law_numbers_stand_lowest_byte_first(sidecar.version as nat);
    let held = bytes.subrange(4, 6);
    assert(held == version);
    assert(held[0] == bytes[4] && held[1] == bytes[5]);
    lemma_split(bytes, 6, le_bytes(id.len(), 4), id);
    lemma_word(bytes, 6, id.len());
}

proof fn lemma_entry(bytes: Seq<u8>, at: nat, entry: Option<u32>)
    requires
        holds_at(bytes, at, optional_bytes(entry)),
    ensures
        match entry {
            None => bytes[at as int] == 0 && optional_bytes(entry).len() == 1,
            Some(number) => bytes[at as int] == 1 && word_from(bytes, at + 1int) == number
                && optional_bytes(entry).len() == 5,
        },
{
    match entry {
        None => {
            lemma_le_bytes_len(0, 1);
            lemma_byte(bytes, at as int, 0);
        },
        Some(number) => {
            lemma_le_bytes_len(1, 1);
            lemma_le_bytes_len(number as nat, 4);
            lemma_split(bytes, at, le_bytes(1, 1), le_bytes(number as nat, 4));
            lemma_byte(bytes, at as int, 1);
            lemma_word(bytes, at + 1int, number as nat);
        },
    }
}

/// A file starts with `LPH1`, the version and the segment identifier. The tags of the index
/// family and the metric follow, and the dimensions, the three build parameters, the highest
/// level, the entry point behind a tag, and the number of nodes.
pub proof fn law_headers_are_laid_out(sidecar: SidecarModel)
    requires
        sidecar_fits(sidecar),
    ensures
        ({
            let bytes = sidecar_bytes(sidecar);
            let id = encode_utf8(sidecar.segment_id);
            let at = 10 + id.len() as int;
            &&& bytes[0] == 0x4c && bytes[1] == 0x50 && bytes[2] == 0x48 && bytes[3] == 0x31
            &&& bytes[4] + 0x100 * bytes[5] == sidecar.version
            &&& word_from(bytes, 6) == id.len()
            &&& bytes.subrange(10, at) == id
            &&& sidecar.index_kind == IndexKind::Hnsw <==> bytes[at] == 1
            &&& sidecar.index_kind == IndexKind::IvfPq <==> bytes[at] == 2
            &&& sidecar.index_kind == IndexKind::Flat <==> bytes[at] == 3
            &&& sidecar.metric == DistanceMetric::Cosine <==> bytes[at + 1] == 1
            &&& sidecar.metric == DistanceMetric::Dot <==> bytes[at + 1] == 2
            &&& sidecar.metric == DistanceMetric::L2 <==> bytes[at + 1] == 3
            &&& word_from(bytes, at + 2) == sidecar.dimensions
            &&& word_from(bytes, at + 6) == sidecar.params.max_neighbors
            &&& word_from(bytes, at + 10) == sidecar.params.ef_construction
            &&& word_from(bytes, at + 14) == sidecar.params.ef_search
            &&& bytes[at + 18] == sidecar.max_level
            &&& match sidecar.entry_point {
                None => bytes[at + 19] == 0 && word_from(bytes, at + 20) == sidecar.nodes.len()
                    && header_bytes(sidecar).len() == at + 24,
                Some(entry) => bytes[at + 19] == 1 && word_from(bytes, at + 20) == entry
                    && word_from(bytes, at + 24) == sidecar.nodes.len() && header_bytes(
                    sidecar,
                ).len() == at + 28,
            }
        }),
{
    let bytes = sidecar_bytes(sidecar);
    let id = encode_utf8(sidecar.segment_id);
    let at = 10 + id.len() as int;
    let start = magic() + le_bytes(sidecar.version as nat, 2) + text_bytes(sidecar.segment_id);
    let kind = le_bytes(kind_tag(sidecar.index_kind), 1);
    let metric = le_bytes(metric_tag(sidecar.metric), 1);
    let dimensions = le_bytes(sidecar.dimensions as nat, 4);
    let neighbors = le_bytes(sidecar.params.max_neighbors as nat, 4);
    let construction = le_bytes(sidecar.params.ef_construction as nat, 4);
    let search = le_bytes(sidecar.params.ef_search as nat, 4);
    let level = le_bytes(sidecar.max_level as nat, 1);
    let entry = optional_bytes(sidecar.entry_point);
    let count = le_bytes(sidecar.nodes.len(), 4);
    lemma_le_bytes_len(sidecar.version as nat, 2);
    lemma_le_bytes_len(id.len(), 4);
    lemma_le_bytes_len(kind_tag(sidecar.index_kind), 1);
    lemma_le_bytes_len(metric_tag(sidecar.metric), 1);
    lemma_le_bytes_len(sidecar.dimensions as nat, 4);
    lemma_le_bytes_len(sidecar.params.max_neighbors as nat, 4);
    lemma_le_bytes_len(sidecar.params.ef_construction as nat, 4);
    lemma_le_bytes_len(sidecar.params.ef_search as nat, 4);
    lemma_le_bytes_len(sidecar.max_level as nat, 1);
    lemma_le_bytes_len(sidecar.nodes.len(), 4);
    let tagged = start + kind + metric + dimensions;
    let sized = tagged + neighbors + construction + search;
    assert(header_bytes(sidecar) == sized + level + entry + count);
    assert(bytes.subrange(0, bytes.len() as int) =~= bytes);
    assert(holds_at(bytes, 0, bytes));
    lemma_split(bytes, 0, header_bytes(sidecar), nodes_bytes(sidecar.nodes));
    lemma_split_thrice(bytes, sized, level, entry, count);
    lemma_split_thrice(bytes, tagged, neighbors, construction, search);
    lemma_split_thrice(bytes, start, kind, metric, dimensions);
    assert(start.len() == at && tagged.len() == at + 6 && sized.len() == at + 18);
    lemma_start(bytes, sidecar);
    lemma_byte(bytes, at, kind_tag(sidecar.index_kind));
    lemma_byte(bytes, at + 1, metric_tag(sidecar.metric));
    lemma_word(bytes, at + 2, sidecar.dimensions as nat);
    lemma_word(bytes, at + 6, sidecar.params.max_neighbors as nat);
    lemma_word(bytes, at + 10, sidecar.params.ef_construction as nat);
    lemma_word(bytes, at + 14, sidecar.params.ef_search as nat);
    lemma_byte(bytes, at + 18, sidecar.max_level as nat);
    lemma_entry(bytes, (at + 19) as nat, sidecar.entry_point);
    lemma_word(bytes, at + 19 + entry.len(), sidecar.nodes.len());
}

/// A node starts with its level, the position of its entry and its sequence number. The record
/// identifier, the vector and the metadata follow, and the number of its neighbor lists.
pub proof fn law_nodes_are_laid_out(node: NodeModel)
    requires
        node_fits(node),
    ensures
        ({
            let bytes = node_bytes(node);
            let id = encode_utf8(node.record.record_id);
            let metadata = encode_utf8(json_rewritten(node.record.metadata));
            let vector_at = 17 + id.len() as int;
            let metadata_at = vector_at + 4 + 4 * node.record.vector.len();
            let lists_at = metadata_at + 4 + metadata.len();
            &&& bytes[0] == node.level
            &&& word_from(bytes, 1) == node.record.entry_offset_index
            &&& word_from(bytes, 5) + 0x1_0000_0000 * word_from(bytes, 9) == node.record.seq_no
            &&& word_from(bytes, 13) == id.len()
            &&& bytes.subrange(17, vector_at) == id
            &&& word_from(bytes, vector_at) == node.record.vector.len()
            &&& forall|i: int|
                0 <= i < node.record.vector.len() ==> word_from(bytes, vector_at + 4 + 4 * i)
                    == #[trigger] node.record.vector[i]
            &&& word_from(bytes, metadata_at) == metadata.len()
            &&& bytes.subrange(metadata_at + 4, lists_at) == metadata
            &&& word_from(bytes, lists_at) == node.neighbors.len()
            &&& bytes.skip(lists_at + 4) == lists_bytes(node.neighbors)
        }),
{
    let bytes = node_bytes(node);
    let text = json_rewritten(node.record.metadata);
    let id = encode_utf8(node.record.record_id);
    let metadata = encode_utf8(text);
    let vector_at = 17 + id.len() as int;
    let metadata_at = vector_at + 4 + 4 * node.record.vector.len();
    let lists_at = metadata_at + 4 + metadata.len();
    let level = le_bytes(node.level as nat, 1);
    let offset = le_bytes(node.record.entry_offset_index as nat, 4);
    let number = le_bytes(node.record.seq_no as nat, 8);
    let first = text_bytes(node.record.record_id);
    let second = word_list_bytes(node.record.vector);
    let third = text_bytes(text);
    let count = le_bytes(node.neighbors.len(), 4);
    let lists = lists_bytes(node.neighbors);
    lemma_le_bytes_len(node.level as nat, 1);
    lemma_le_bytes_len(node.record.entry_offset_index as nat, 4);
    lemma_le_bytes_len(node.record.seq_no as nat, 8);
    lemma_le_bytes_len(id.len(), 4);
    lemma_le_bytes_len(metadata.len(), 4);
    lemma_le_bytes_len(node.neighbors.len(), 4);
    law_lists_stand_behind_their_counts(node.record.vector);
    let numbers = level + offset + number;
    let texts = numbers + first + second + third;
    assert(bytes == texts + count + lists);
    assert(bytes.subrange(0, bytes.len() as int) =~= bytes);
    assert(holds_at(bytes, 0, bytes));
    lemma_split(bytes, 0, texts + count, lists);
    lemma_split(bytes, 0, texts, count);
    lemma_split_thrice(bytes, numbers, first, second, third);
    lemma_split(bytes, 0, level + offset, number);
    lemma_split(bytes, 0, level, offset);
    assert(numbers.len() == 13 && texts.len() == lists_at);
    lemma_byte(bytes, 0, node.level as nat);
    lemma_word(bytes, 1, node.record.entry_offset_index as nat);
    lemma_long(bytes, 5, node.record.seq_no);
    lemma_split(bytes, 13, le_bytes(id.len(), 4), id);
    lemma_word(bytes, 13, id.len());
    lemma_split(bytes, metadata_at as nat, le_bytes(metadata.len(), 4), metadata);
    lemma_word(bytes, metadata_at, metadata.len());
    lemma_word(bytes, lists_at, node.neighbors.len());
    assert(bytes.skip(lists_at + 4) =~= lists);
    lemma_moved_word(bytes, vector_at, second, 0);
    assert forall|i: int| 0 <= i < node.record.vector.len() implies word_from(
        bytes,
        vector_at + 4 + 4 * i,
    ) == #[trigger] node.record.vector[i] by {
        assert(word_from(second, 4 + 4 * i) == node.record.vector[i]);
        lemma_moved_word(bytes, vector_at, second, 4 + 4 * i);
    }
}

proof fn lemma_moved_word(bytes: Seq<u8>, at: int, piece: Seq<u8>, inner: int)
    requires
        0 <= at,
        0 <= inner,
        inner + 4 <= piece.len(),
        holds_at(bytes, at as nat, piece),
    ensures
        word_from(bytes, at + inner) == word_from(piece, inner),
{
    let held = bytes.subrange(at, at + piece.len());
    assert(held == piece);
    assert(held[inner] == bytes[at + inner]);
    assert(held[inner + 1] == bytes[at + inner + 1]);
    assert(held[inner + 2] == bytes[at + inner + 2]);
    assert(held[inner + 3] == bytes[at + inner + 3]);
}

proof fn lemma_long(bytes: Seq<u8>, at: int, value: u64)
    requires
        0 <= at,
        holds_at(bytes, at as nat, le_bytes(value as nat, 8)),
    ensures
        word_from(bytes, at) + 0x1_0000_0000 * word_from(bytes, at + 4) == value,
{
    let first = value as nat;
    let second = first / 256;
    let third = second / 256;
    let fourth = third / 256;
    let fifth = fourth / 256;
    let sixth = fifth / 256;
    let seventh = sixth / 256;
    let eighth = seventh / 256;
    let piece = le_bytes(first, 8);
    assert(piece == seq![
        (first % 256) as u8,
        (second % 256) as u8,
        (third % 256) as u8,
        (fourth % 256) as u8,
        (fifth % 256) as u8,
        (sixth % 256) as u8,
        (seventh % 256) as u8,
        (eighth % 256) as u8,
    ]) by {
        reveal_with_fuel(le_bytes, 9);
    }
    let held = bytes.subrange(at, at + 8);
    assert(held == piece);
    assert(bytes[at] == held[0] && bytes[at + 1] == held[1] && bytes[at + 2] == held[2] && bytes[at
        + 3] == held[3]);
    assert(bytes[at + 4] == held[4] && bytes[at + 5] == held[5] && bytes[at + 6] == held[6]
        && bytes[at + 7] == held[7]);
    assert(first == first % 256 + 256 * second);
    assert(second == second % 256 + 256 * third);
    assert(third == third % 256 + 256 * fourth);
    assert(fourth == fourth % 256 + 256 * fifth);
    assert(fifth == fifth % 256 + 256 * sixth);
    assert(sixth == sixth % 256 + 256 * seventh);
    assert(seventh == seventh % 256 + 256 * eighth);
    assert(eighth < 256);
}

/// Neighbor lists follow each other in order, each behind its count.
pub proof fn law_neighbor_lists_follow_each_other(lists: Seq<Seq<u32>>, i: int)
    requires
        0 <= i < lists.len(),
        forall|k: int| 0 <= k < lists.len() ==> (#[trigger] lists[k]).len() <= u32::MAX,
    ensures
        ({
            let at = lists_bytes(lists.take(i)).len() as int;
            let end = lists_bytes(lists.take(i + 1)).len() as int;
            let bytes = lists_bytes(lists);
            &&& i == 0 ==> at == 0
            &&& end == at + 4 + 4 * lists[i].len()
            &&& i + 1 == lists.len() ==> end == bytes.len()
            &&& end <= bytes.len()
            &&& word_from(bytes, at) == lists[i].len()
            &&& forall|j: int|
                0 <= j < lists[i].len() ==> word_from(bytes, at + 4 + 4 * j)
                    == #[trigger] lists[i][j]
        }),
    decreases lists.len(),
{
    let at = lists_bytes(lists.take(i)).len();
    let bytes = lists_bytes(lists);
    let piece = word_list_bytes(lists[i]);
    assert(lists.take(i + 1).drop_last() =~= lists.take(i));
    assert(lists.take(i + 1).last() == lists[i]);
    law_lists_stand_behind_their_counts(lists[i]);
    lemma_lists_start(lists, i + 1);
    assert(lists_bytes(lists.take(i + 1)) == lists_bytes(lists.take(i)) + piece);
    assert(bytes.subrange(at as int, (at + piece.len()) as int) =~= lists_bytes(
        lists.take(i + 1),
    ).subrange(at as int, (at + piece.len()) as int));
    assert(bytes.subrange(at as int, (at + piece.len()) as int) =~= piece);
    assert(holds_at(bytes, at, piece));
    if i + 1 == lists.len() {
        assert(lists.take(i + 1) =~= lists);
    }
    lemma_moved_word(bytes, at as int, piece, 0);
    assert forall|j: int| 0 <= j < lists[i].len() implies word_from(bytes, at as int + 4 + 4 * j)
        == #[trigger] lists[i][j] by {
        assert(word_from(piece, 4 + 4 * j) == lists[i][j]);
        lemma_moved_word(bytes, at as int, piece, 4 + 4 * j);
    }
}

proof fn lemma_lists_start(lists: Seq<Seq<u32>>, count: int)
    requires
        0 <= count <= lists.len(),
    ensures
        lists_bytes(lists.take(count)).len() <= lists_bytes(lists).len(),
        lists_bytes(lists).take(lists_bytes(lists.take(count)).len() as int) == lists_bytes(
            lists.take(count),
        ),
    decreases lists.len(),
{
    if count == lists.len() {
        assert(lists.take(count) =~= lists);
        assert(lists_bytes(lists).take(lists_bytes(lists).len() as int) =~= lists_bytes(lists));
    } else {
        let shorter = lists.drop_last();
        lemma_lists_start(shorter, count);
        assert(shorter.take(count) =~= lists.take(count));
        let front = lists_bytes(lists.take(count));
        assert(lists_bytes(lists).take(front.len() as int) =~= lists_bytes(shorter).take(
            front.len() as int,
        ));
    }
}

/// Nodes follow each other in order, behind the header.
pub proof fn law_nodes_follow_each_other(sidecar: SidecarModel, i: int)
    requires
        0 <= i < sidecar.nodes.len(),
    ensures
        ({
            let bytes = sidecar_bytes(sidecar);
            let at = header_bytes(sidecar).len() + nodes_bytes(sidecar.nodes.take(i)).len() as int;
            let end = at + node_bytes(sidecar.nodes[i]).len();
            &&& i == 0 ==> at == header_bytes(sidecar).len()
            &&& nodes_bytes(sidecar.nodes.take(i + 1)).len() == nodes_bytes(
                sidecar.nodes.take(i),
            ).len() + node_bytes(sidecar.nodes[i]).len()
            &&& i + 1 == sidecar.nodes.len() ==> end == bytes.len()
            &&& end <= bytes.len()
            &&& bytes.subrange(at, end) == node_bytes(sidecar.nodes[i])
        }),
{
    let nodes = sidecar.nodes;
    let header = header_bytes(sidecar);
    let bytes = sidecar_bytes(sidecar);
    let piece = node_bytes(nodes[i]);
    let before = nodes_bytes(nodes.take(i));
    assert(nodes.take(i + 1).drop_last() =~= nodes.take(i));
    assert(nodes.take(i + 1).last() == nodes[i]);
    assert(nodes_bytes(nodes.take(i + 1)) == before + piece);
    lemma_nodes_start(nodes, i + 1);
    if i + 1 == nodes.len() {
        assert(nodes.take(i + 1) =~= nodes);
    }
    let at = header.len() + before.len();
    let part = bytes.subrange(at as int, (at + piece.len()) as int);
    assert(part =~= nodes_bytes(nodes).take((before + piece).len() as int).subrange(
        before.len() as int,
        (before + piece).len() as int,
    ));
    assert(part =~= piece);
}

proof fn lemma_nodes_start(nodes: Seq<NodeModel>, count: int)
    requires
        0 <= count <= nodes.len(),
    ensures
        nodes_bytes(nodes.take(count)).len() <= nodes_bytes(nodes).len(),
        nodes_bytes(nodes).take(nodes_bytes(nodes.take(count)).len() as int) == nodes_bytes(
            nodes.take(count),
        ),
    decreases nodes.len(),
{
    if count == nodes.len() {
        assert(nodes.take(count) =~= nodes);
        assert(nodes_bytes(nodes).take(nodes_bytes(nodes).len() as int) =~= nodes_bytes(nodes));
    } else {
        let shorter = nodes.drop_last();
        lemma_nodes_start(shorter, count);
        assert(shorter.take(count) =~= nodes.take(count));
        let front = nodes_bytes(nodes.take(count));
        assert(nodes_bytes(nodes).take(front.len() as int) =~= nodes_bytes(shorter).take(
            front.len() as int,
        ));
    }
}

/// A file that does not start with `LPH1` is refused, by the name that it goes by; one of fewer
/// than four bytes ends too early.
pub proof fn law_files_of_another_kind_are_refused(bytes: Seq<u8>, label: Seq<char>)
    requires
        bytes.len() >= 4 ==> !(bytes[0] == 0x4c && bytes[1] == 0x50 && bytes[2] == 0x48 && bytes[3]
            == 0x31),
    ensures
        decoded(bytes, label) is Err,
        bytes.len() < 4 ==> decoded(bytes, label)->Err_0 == (ErrorModel {
            kind: IndexErrorKind::UnexpectedEof,
            message: "truncated hnsw payload"@,
        }),
        bytes.len() >= 4 ==> decoded(bytes, label)->Err_0 == (ErrorModel {
            kind: IndexErrorKind::InvalidData,
            message: "invalid hnsw magic in '"@ + label + "'"@,
        }),
{
    if bytes.len() >= 4 {
        let start = bytes.subrange(0, 4);
        assert(start[0] == bytes[0] && start[1] == bytes[1] && start[2] == bytes[2] && start[3]
            == bytes[3]);
        assert(start != magic());
    }
}

/// A byte that is no tag is refused, and named.
pub proof fn law_unknown_tags_are_refused(tag: nat)
    requires
        tag < 1 || tag > 3,
    ensures
        kind_of_tag(tag) == Err::<IndexKind, ErrorModel>(
            (ErrorModel {
                kind: IndexErrorKind::InvalidData,
                message: "unknown index kind tag "@ + decimal(tag),
            }),
        ),
        metric_of_tag(tag) == Err::<DistanceMetric, ErrorModel>(
            (ErrorModel {
                kind: IndexErrorKind::InvalidData,
                message: "unknown metric tag "@ + decimal(tag),
            }),
        ),
{
}

/// The first node above the highest level is named.
pub proof fn law_levels_above_the_highest_are_named(
    nodes: Seq<NodeModel>,
    max_level: u8,
    node: int,
)
    requires
        0 <= node < nodes.len(),
        nodes[node].level > max_level,
        forall|n: int| 0 <= n < node ==> (#[trigger] nodes[n]).level <= max_level,
    ensures
        levels_fault(nodes, max_level, nodes.len()) == Some(
            (ErrorModel {
                kind: IndexErrorKind::InvalidData,
                message: "node "@ + decimal(node as nat) + " level "@ + decimal(
                    nodes[node].level as nat,
                ) + " exceeds max level "@ + decimal(max_level as nat),
            }),
        ),
{
    lemma_levels_pass(nodes, max_level, node as nat);
    lemma_levels_fault_stays(nodes, max_level, (node + 1) as nat, nodes.len());
}

/// Levels up to the highest are accepted.
pub proof fn law_levels_up_to_the_highest_pass(nodes: Seq<NodeModel>, max_level: u8)
    requires
        forall|n: int| 0 <= n < nodes.len() ==> (#[trigger] nodes[n]).level <= max_level,
    ensures
        levels_fault(nodes, max_level, nodes.len()) is None,
{
    lemma_levels_pass(nodes, max_level, nodes.len());
}

proof fn lemma_levels_pass(nodes: Seq<NodeModel>, max_level: u8, count: nat)
    requires
        count <= nodes.len(),
        forall|n: int| 0 <= n < count ==> (#[trigger] nodes[n]).level <= max_level,
    ensures
        levels_fault(nodes, max_level, count) is None,
    decreases count,
{
    if count > 0 {
        lemma_levels_pass(nodes, max_level, (count - 1) as nat);
    }
}

proof fn lemma_levels_fault_stays(nodes: Seq<NodeModel>, max_level: u8, early: nat, late: nat)
    requires
        early <= late,
        levels_fault(nodes, max_level, early) is Some,
    ensures
        levels_fault(nodes, max_level, late) == levels_fault(nodes, max_level, early),
    decreases late,
{
    if early < late {
        lemma_levels_fault_stays(nodes, max_level, early, (late - 1) as nat);
    }
}

/// A stored vector of another length than the dimensions is refused, and named.
pub proof fn law_stored_vectors_have_the_dimensions(record: RecordModel, dimensions: nat)
    ensures
        record.vector.len() == dimensions <==> record_fault(record, dimensions) is None,
        record.vector.len() != dimensions ==> record_fault(record, dimensions) == Some(
            (ErrorModel {
                kind: IndexErrorKind::InvalidData,
                message: "stored vector '"@ + record.record_id + "' expected "@ + decimal(
                    dimensions,
                ) + " dimensions but found "@ + decimal(record.vector.len()),
            }),
        ),
{
}

/// An optional number stands behind a byte that says whether it is there: none behind zero, one
/// behind one, and any other byte is refused, and named.
pub proof fn law_optional_numbers_stand_behind_a_tag(bytes: Seq<u8>, at: nat)
    requires
        at < bytes.len(),
    ensures
        bytes[at as int] == 0 ==> optional_at(bytes, at) == Ok::<(Option<u32>, nat), ErrorModel>(
            (None, at + 1),
        ),
        bytes[at as int] == 1 && at + 5 <= bytes.len() ==> (optional_at(bytes, at) matches Ok(read)
            && read.0 is Some && read.0->0 == word_from(bytes, at + 1int) && read.1 == at + 5),
        bytes[at as int] == 1 && at + 5 > bytes.len() ==> optional_at(bytes, at) == Err::<
            (Option<u32>, nat),
            ErrorModel,
        >(
            (ErrorModel {
                kind: IndexErrorKind::UnexpectedEof,
                message: "truncated hnsw payload"@,
            }),
        ),
        bytes[at as int] > 1 ==> optional_at(bytes, at) == Err::<(Option<u32>, nat), ErrorModel>(
            (ErrorModel {
                kind: IndexErrorKind::InvalidData,
                message: "invalid optional u32 tag "@ + decimal(bytes[at as int] as nat),
            }),
        ),
{
    let tag = bytes.subrange(at as int, (at + 1) as int);
    assert(tag.drop_first() =~= Seq::empty());
    assert(le_value(tag.drop_first()) == 0);
    assert(le_value(tag) == bytes[at as int]);
    if at + 5 <= bytes.len() {
        lemma_word_read(bytes, at + 1);
    }
}

/// Four bytes are read as the number that they stand for, lowest first.
pub proof fn law_words_are_read_lowest_byte_first(bytes: Seq<u8>, at: nat)
    ensures
        at + 4 <= bytes.len() ==> (number_at(bytes, at, 4) matches Ok(read) && read.0 == word_from(
            bytes,
            at as int,
        ) && read.1 == at + 4),
        at + 4 > bytes.len() ==> number_at(bytes, at, 4) == Err::<(nat, nat), ErrorModel>(
            (ErrorModel {
                kind: IndexErrorKind::UnexpectedEof,
                message: "truncated hnsw payload"@,
            }),
        ),
{
    if at + 4 <= bytes.len() {
        lemma_word_read(bytes, at);
    }
}

proof fn lemma_word_read(bytes: Seq<u8>, at: nat)
    requires
        at + 4 <= bytes.len(),
    ensures
        le_value(bytes.subrange(at as int, at + 4int)) == word_from(bytes, at as int),
{
    reveal_with_fuel(le_value, 5);
    let word = bytes.subrange(at as int, at + 4int);
    assert(word.drop_first() =~= bytes.subrange(at + 1int, at + 4int));
    assert(word.drop_first().drop_first() =~= bytes.subrange(at + 2int, at + 4int));
    assert(word.drop_first().drop_first().drop_first() =~= bytes.subrange(at + 3int, at + 4int));
    assert(word.drop_first().drop_first().drop_first().drop_first() =~= Seq::empty());
}

/// What the format has no room for is refused as an argument that does not fit.
pub proof fn law_oversized_numbers_are_refused()
    ensures
        too_large() == (ErrorModel {
            kind: IndexErrorKind::InvalidInput,
            message: "value does not fit in u32"@,
        }),
{
}

} // verus!
