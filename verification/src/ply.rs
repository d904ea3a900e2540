//! The binary `.ply` container that gaussian splat exports use.

use vstd::hash_map::StringHashMap;
use vstd::prelude::*;

use crate::float_bits::{read_word, word_at, FloatBits};
use crate::text::{
    chars_of, decimal, decimal_text, has_prefix, lemma_line_len, lemma_word_len,
    line_len, parse_usize, same_text, split_words, starts_with, unsigned_value, views, words,
};
#[allow(unused_imports)]
use crate::float_bits::words_hold_their_bytes;
#[allow(unused_imports)]
use crate::text::{
    decimal_reads_back, decimals_are_digits, is_word, lines_end_at_their_feed,
    written_words_are_read_back,
};

verus! {

/// Bytes taken by a property of type `ty`; an unknown type counts as four.
pub open spec fn size_of_type(ty: Seq<char>) -> nat {
    if ty == "char"@ || ty == "uchar"@ || ty == "int8"@ || ty == "uint8"@ {
        1
    } else if ty == "short"@ || ty == "ushort"@ || ty == "int16"@ || ty == "uint16"@ {
        2
    } else if ty == "double"@ || ty == "float64"@ {
        8
    } else {
        4
    }
}

/// Bytes taken by a property of type `ty`.
pub fn type_size(ty: &str) -> (r: usize)
    ensures
        r == size_of_type(ty@),
{
    if same_text(ty, "char") || same_text(ty, "uchar") || same_text(ty, "int8") || same_text(
        ty,
        "uint8",
    ) {
        1
    } else if same_text(ty, "short") || same_text(ty, "ushort") || same_text(ty, "int16")
        || same_text(ty, "uint16") {
        2
    } else if same_text(ty, "double") || same_text(ty, "float64") {
        8
    } else {
        4
    }
}

/// `needle` stands in `haystack` at position `at`.
pub open spec fn found_at(haystack: Seq<u8>, needle: Seq<u8>, at: int) -> bool {
    0 <= at <= haystack.len() - needle.len() && haystack.subrange(at, at + needle.len()) == needle
}

/// The first position at which `needle` stands in `haystack`.
pub open spec fn first_found(haystack: Seq<u8>, needle: Seq<u8>) -> Option<int> {
    if exists|i: int| found_at(haystack, needle, i) {
        Some(
            choose|i: int|
                #![trigger found_at(haystack, needle, i)]
                found_at(haystack, needle, i) && forall|j: int|
                    0 <= j < i ==> !found_at(haystack, needle, j),
        )
    } else {
        None
    }
}

/// The first position of `needle` in `haystack`.
pub fn find_subsequence(haystack: &[u8], needle: &[u8]) -> (r: Option<usize>)
    requires
        needle@.len() > 0,
    ensures
        match r {
            Some(i) => {
                &&& found_at(haystack@, needle@, i as int)
                &&& forall|j: int| 0 <= j < i ==> !found_at(haystack@, needle@, j)
                &&& first_found(haystack@, needle@) == Some(i as int)
            },
            None => {
                &&& forall|j: int| !found_at(haystack@, needle@, j)
                &&& first_found(haystack@, needle@) is None
            },
        },
{
    if haystack.len() < needle.len() {
        return None;
    }
    let last: usize = haystack.len() - needle.len();
    let mut i: usize = 0;
    loop
        invariant
            i <= last,
            last == haystack@.len() - needle@.len(),
            forall|j: int| 0 <= j < i ==> !found_at(haystack@, needle@, j),
        decreases last - i,
    {
        let mut k: usize = 0;
        while k < needle.len() && haystack[i + k] == needle[k]
            invariant
                k <= needle.len(),
                i + needle.len() <= haystack.len(),
                forall|j: int| 0 <= j < k ==> haystack@[i + j] == needle@[j],
            decreases needle.len() - k,
        {
            k += 1;
        }
        if k == needle.len() {
            assert(haystack@.subrange(i as int, i + needle@.len()) == needle@);
            assert(found_at(haystack@, needle@, i as int));
            return Some(i);
        }
        assert(haystack@.subrange(i as int, i + needle@.len())[k as int] != needle@[k as int]);
        if i == last {
            return None;
        }
        i += 1;
    }
}

/// What the header lines say.
#[verifier::ext_equal]
pub struct HeaderModel {
    /// The word after each `format`, in order; empty where none follows.
    pub formats: Seq<Seq<char>>,
    /// Number of vertices that the last `element vertex` line claims.
    pub vertex_count: nat,
    /// Bytes taken by all properties together.
    pub stride: nat,
    /// Where each property begins within a vertex; the last one of a name counts.
    pub offsets: Map<Seq<char>, nat>,
}

pub open spec fn empty_header() -> HeaderModel {
    HeaderModel { formats: seq![], vertex_count: 0, stride: 0, offsets: Map::empty() }
}

/// The header after one more line, given by its words.
pub open spec fn header_step(h: HeaderModel, line: Seq<Seq<char>>) -> HeaderModel {
    if line.len() > 0 && line[0] == "format"@ {
        HeaderModel {
            formats: h.formats.push(
                if line.len() > 1 {
                    line[1]
                } else {
                    seq![]
                },
            ),
            ..h
        }
    } else if line.len() > 1 && line[0] == "element"@ && line[1] == "vertex"@ {
        HeaderModel {
            vertex_count: if line.len() > 2 {
                unsigned_value(line[2], usize::MAX as nat).unwrap_or(0)
            } else {
                0
            },
            ..h
        }
    } else if line.len() > 2 && line[0] == "property"@ {
        HeaderModel {
            offsets: h.offsets.insert(line[2], h.stride),
            stride: h.stride + size_of_type(line[1]),
            ..h
        }
    } else {
        h
    }
}

/// The header `h` after all lines of `text`.
pub open spec fn header_steps(h: HeaderModel, text: Seq<char>) -> HeaderModel
    decreases text.len(),
{
    let n = line_len(text) as int;
    let next = header_step(h, words(text.take(n)));
    if n < text.len() {
        header_steps(next, text.skip(n + 1))
    } else {
        next
    }
}

/// What a header says, line by line.
pub open spec fn header_of(text: Seq<char>) -> HeaderModel {
    header_steps(empty_header(), text)
}

/// The names of the properties that begin with `prefix`.
pub open spec fn names_with(offsets: Map<Seq<char>, nat>, prefix: Seq<char>) -> Set<Seq<char>> {
    offsets.dom().filter(|k: Seq<char>| starts_with(k, prefix))
}

/// A scanned header.
pub struct PlyHeader {
    pub formats: Vec<String>,
    pub vertex_count: usize,
    pub stride: usize,
    pub offsets: StringHashMap<usize>,
    /// How many properties are named `f_rest_...`.
    pub num_rest: usize,
}

/// `num_rest` follows from the offsets; see `wf`.
impl View for PlyHeader {
    type V = HeaderModel;

    open spec fn view(&self) -> HeaderModel {
        HeaderModel {
            formats: views(self.formats@),
            vertex_count: self.vertex_count as nat,
            stride: self.stride as nat,
            offsets: self.offsets@.map_values(|o: usize| o as nat),
        }
    }
}

impl PlyHeader {
    /// `num_rest` counts the properties whose names begin with `f_rest_`.
    pub open spec fn wf(&self) -> bool {
        &&& self.num_rest == names_with(self@.offsets, "f_rest_"@).len()
        &&& self@.offsets.dom().finite()
        &&& forall|name: Seq<char>|
            #![trigger self.offsets@[name]]
            self.offsets@.contains_key(name) ==> self.offsets@[name] < self.stride
    }
}

proof fn lemma_names_with_insert(offsets: Map<Seq<char>, nat>, name: Seq<char>, at: nat, prefix: Seq<char>)
    requires
        offsets.dom().finite(),
    ensures
        offsets.insert(name, at).dom().finite(),
        names_with(offsets.insert(name, at), prefix).len() == names_with(offsets, prefix).len() + (
        if starts_with(name, prefix) && !offsets.contains_key(name) {
            1int
        } else {
            0
        }),
{
    let before = names_with(offsets, prefix);
    let after = names_with(offsets.insert(name, at), prefix);
    assert(before.finite());
    if starts_with(name, prefix) {
        assert(after == before.insert(name));
    } else {
        assert(after == before);
    }
}

/// Takes in one header line.
fn scan_line(header: &mut PlyHeader, line: &[char])
    requires
        old(header).wf(),
        old(header).stride + line@.len() <= usize::MAX,
        old(header).num_rest <= old(header).stride,
    ensures
        final(header).wf(),
        final(header)@ == header_step(old(header)@, words(line@)),
        final(header).stride <= old(header).stride + line@.len(),
        final(header).num_rest <= final(header).stride,
{
    let list = split_words(line);
    let ghost w = words(line@);
    assert(w == views(list@));
    assert(forall|i: int| 0 <= i < list@.len() ==> (#[trigger] list@[i])@ == w[i]);
    if list.len() == 0 {
        return;
    }
    let first = list[0].as_str();
    if same_text(first, "format") {
        let format = if list.len() > 1 {
            list[1].clone()
        } else {
            String::new()
        };
        header.formats.push(format);
        assert(header@.formats == header_step(old(header)@, w).formats);
    } else if same_text(first, "element") {
        if list.len() > 1 && same_text(list[1].as_str(), "vertex") {
            header.vertex_count = if list.len() > 2 {
                match parse_usize(list[2].as_str()) {
                    Some(n) => n,
                    None => 0,
                }
            } else {
                0
            };
        }
        proof {
            reveal_strlit("element");
            reveal_strlit("property");
        }
    } else if same_text(first, "property") {
        if list.len() > 2 {
            let name = list[2].clone();
            let size: usize = type_size(list[1].as_str());
            proof {
                lemma_first_word(line@);
                reveal_strlit("property");
                lemma_names_with_insert(header@.offsets, name@, header.stride as nat, "f_rest_"@);
            }
            if has_prefix(list[2].as_str(), "f_rest_") && !header.offsets.contains_key(
                list[2].as_str(),
            ) {
                header.num_rest += 1;
            }
            header.offsets.insert(name, header.stride);
            header.stride += size;
            assert(header@.offsets == header_step(old(header)@, w).offsets);
        }
    }
}

proof fn lemma_first_word(s: Seq<char>)
    requires
        words(s).len() > 0,
    ensures
        words(s)[0].len() <= s.len(),
    decreases s.len(),
{
    if crate::text::white_space(s[0]) {
        lemma_first_word(s.skip(1));
    } else {
        lemma_word_len(s);
    }
}

/// Scans the header lines.
pub fn scan_header(text: &str) -> (r: PlyHeader)
    ensures
        r.wf(),
        r@ == header_of(text@),
        r.num_rest <= r.stride <= text@.len(),
{
    let chars = chars_of(text);
    let mut header = PlyHeader {
        formats: Vec::new(),
        vertex_count: 0,
        stride: 0,
        offsets: StringHashMap::new(),
        num_rest: 0,
    };
    assert(header@ == empty_header());
    assert(names_with(header@.offsets, "f_rest_"@) == Set::<Seq<char>>::empty());
    let mut start: usize = 0;
    assert(chars@.skip(0) == chars@);
    loop
        invariant
            start <= chars.len(),
            header.wf(),
            header.stride <= start,
            header.num_rest <= header.stride,
            header_of(chars@) == header_steps(header@, chars@.skip(start as int)),
            chars@ == text@,
        decreases chars.len() - start,
    {
        let mut end: usize = start;
        let ghost rest = chars@.skip(start as int);
        while end < chars.len() && chars[end] != '\n'
            invariant
                start <= end <= chars.len(),
                rest == chars@.skip(start as int),
                line_len(rest) == (end - start) + line_len(chars@.skip(end as int)),
            decreases chars.len() - end,
        {
            assert(chars@.skip(end as int).skip(1) == chars@.skip(end as int + 1));
            end += 1;
        }
        assert(line_len(rest) == end - start);
        assert(rest.take(end - start) == chars@.subrange(start as int, end as int));
        scan_line(&mut header, vstd::slice::slice_subrange(chars.as_slice(), start, end));
        if end == chars.len() {
            return header;
        }
        assert(rest.skip(end - start + 1) == chars@.skip(end as int + 1));
        start = end + 1;
    }
}

/// Where a property begins, if the header has it.
pub open spec fn offset_of(offsets: Map<Seq<char>, nat>, name: Seq<char>) -> Option<nat> {
    if offsets.contains_key(name) {
        Some(offsets[name])
    } else {
        None
    }
}

/// The properties that make one splat: position, rotation, log-space scale,
/// opacity logit, base color, and then for each of the first eight higher-order
/// coefficients its red, green and blue part. The higher-order coefficients are
/// stored channel by channel with `per_channel` coefficients each.
pub open spec fn splat_field_names(per_channel: nat) -> Seq<Seq<char>> {
    seq![
        "x"@,
        "y"@,
        "z"@,
        "rot_0"@,
        "rot_1"@,
        "rot_2"@,
        "rot_3"@,
        "scale_0"@,
        "scale_1"@,
        "scale_2"@,
        "opacity"@,
        "f_dc_0"@,
        "f_dc_1"@,
        "f_dc_2"@,
    ] + Seq::new(24, |k: int| "f_rest_"@ + decimal((k / 3 + (k % 3) * per_channel) as nat))
}

/// Where each splat field begins, in the order of `splat_field_names`.
pub open spec fn splat_fields(h: HeaderModel, per_channel: nat) -> Seq<Option<nat>> {
    splat_field_names(per_channel).map_values(|name: Seq<char>| offset_of(h.offsets, name))
}

/// Nat view of resolved offsets.
pub open spec fn offsets_view(list: Seq<Option<usize>>) -> Seq<Option<nat>> {
    list.map_values(|o: Option<usize>| match o {
        Some(n) => Some(n as nat),
        None => None,
    })
}

fn resolve(header: &PlyHeader, name: &str) -> (r: Option<usize>)
    ensures
        match r {
            Some(o) => offset_of(header@.offsets, name@) == Some(o as nat),
            None => offset_of(header@.offsets, name@) is None,
        },
        header.wf() ==> (r matches Some(o) ==> o < header.stride),
{
    match header.offsets.get(name) {
        Some(o) => Some(*o),
        None => None,
    }
}

/// Resolves the offset of every splat field up front.
pub fn resolve_fields(header: &PlyHeader, per_channel: usize) -> (r: Vec<Option<usize>>)
    requires
        header.wf(),
        2 * per_channel + 8 <= usize::MAX,
    ensures
        offsets_view(r@) == splat_fields(header@, per_channel as nat),
        forall|k: int| 0 <= k < r@.len() ==> (#[trigger] r@[k] matches Some(o) ==> o < header.stride),
{
    let mut out: Vec<Option<usize>> = Vec::new();
    let ghost names = splat_field_names(per_channel as nat);
    assert(names.len() == 38);
    let fixed: [&str; 14] = [
        "x",
        "y",
        "z",
        "rot_0",
        "rot_1",
        "rot_2",
        "rot_3",
        "scale_0",
        "scale_1",
        "scale_2",
        "opacity",
        "f_dc_0",
        "f_dc_1",
        "f_dc_2",
    ];
    assert(forall|k: int| 0 <= k < 14 ==> (#[trigger] fixed@[k])@ == names[k]);
    let mut i: usize = 0;
    while i < 14
        invariant
            i <= 14,
            header.wf(),
            names.len() == 38,
            forall|k: int| 0 <= k < 14 ==> (#[trigger] fixed@[k])@ == names[k],
            out@.len() == i,
            offsets_view(out@) == names.take(i as int).map_values(
                |name: Seq<char>| offset_of(header@.offsets, name),
            ),
            forall|k: int|
                0 <= k < out@.len() ==> (#[trigger] out@[k] matches Some(o) ==> o < header.stride),
        decreases 14 - i,
    {
        let ghost before = out@;
        let field = resolve(header, fixed[i]);
        out.push(field);
        assert(names.take(i + 1) == names.take(i as int).push(names[i as int]));
        assert(offsets_view(out@) == offsets_view(before).push(
            offset_of(header@.offsets, names[i as int]),
        ));
        i += 1;
    }
    let mut n: usize = 0;
    while n < 8
        invariant
            n <= 8,
            header.wf(),
            2 * per_channel + 8 <= usize::MAX,
            names == splat_field_names(per_channel as nat),
            names.len() == 38,
            out@.len() == 14 + 3 * n,
            offsets_view(out@) == names.take(14 + 3 * n).map_values(
                |name: Seq<char>| offset_of(header@.offsets, name),
            ),
            forall|k: int|
                0 <= k < out@.len() ==> (#[trigger] out@[k] matches Some(o) ==> o < header.stride),
        decreases 8 - n,
    {
        let mut c: usize = 0;
        while c < 3
            invariant
                c <= 3,
                n < 8,
                header.wf(),
                2 * per_channel + 8 <= usize::MAX,
                names == splat_field_names(per_channel as nat),
                names.len() == 38,
                out@.len() == 14 + 3 * n + c,
                offsets_view(out@) == names.take(14 + 3 * n + c).map_values(
                    |name: Seq<char>| offset_of(header@.offsets, name),
                ),
                forall|k: int|
                    0 <= k < out@.len() ==> (#[trigger] out@[k] matches Some(o) ==> o
                        < header.stride),
            decreases 3 - c,
        {
            assert(c * per_channel <= 2 * per_channel) by (nonlinear_arith)
                requires
                    c <= 2,
            ;
            let index: usize = n + c * per_channel;
            let mut name = String::from_str("f_rest_");
            let digits = decimal_text(index as u64);
            name.append(digits.as_str());
            proof {
                let k = 3 * n + c;
                assert(k / 3 == n && k % 3 == c);
                assert(names[14 + k] == "f_rest_"@ + decimal((n + c * per_channel) as nat));
                assert(names.take(14 + 3 * n + c + 1) == names.take(14 + 3 * n + c).push(
                    names[14 + k],
                ));
            }
            let ghost before = out@;
            let field = resolve(header, name.as_str());
            out.push(field);
            assert(offsets_view(out@) == offsets_view(before).push(
                offset_of(header@.offsets, name@),
            ));
            c += 1;
        }
        n += 1;
    }
    assert(names.take(38) == names);
    out
}

/// The value of one field of the vertex at `base`; a missing property reads as
/// zero.
pub open spec fn field_value(bytes: Seq<u8>, base: int, field: Option<nat>) -> FloatBits {
    match field {
        Some(o) => word_at(bytes, base + o),
        None => 0,
    }
}

/// The values of all fields of the vertex at `base`.
pub open spec fn vertex_values(bytes: Seq<u8>, base: int, fields: Seq<Option<nat>>) -> Seq<
    FloatBits,
> {
    fields.map_values(|f: Option<nat>| field_value(bytes, base, f))
}

/// The fields of the vertex at `base` lie within the bytes.
pub open spec fn vertex_fits(len: nat, base: int, fields: Seq<Option<nat>>) -> bool {
    forall|k: int|
        0 <= k < fields.len() ==> (#[trigger] fields[k] matches Some(o) ==> base + o + 4 <= len)
}

/// Reads all fields of the vertex at `base`.
pub fn read_vertex(bytes: &[u8], base: usize, fields: &Vec<Option<usize>>) -> (r: Vec<FloatBits>)
    requires
        vertex_fits(bytes@.len(), base as int, offsets_view(fields@)),
    ensures
        r@ == vertex_values(bytes@, base as int, offsets_view(fields@)),
{
    let mut out: Vec<FloatBits> = Vec::new();
    let mut k: usize = 0;
    while k < fields.len()
        invariant
            k <= fields.len(),
            vertex_fits(bytes@.len(), base as int, offsets_view(fields@)),
            out@ == vertex_values(bytes@, base as int, offsets_view(fields@)).take(k as int),
        decreases fields.len() - k,
    {
        let ghost views = offsets_view(fields@);
        let value = match fields[k] {
            Some(o) => {
                assert(views[k as int] == Some(o as nat));
                assert(base + o + 4 <= bytes.len());
                read_word(bytes, base + o)
            },
            None => 0,
        };
        out.push(value);
        k += 1;
    }
    out
}

/// Position just after the line that holds the header's end marker; past the end
/// where that line has no line feed.
pub open spec fn data_start(bytes: Seq<u8>, header_end: int) -> int
    decreases bytes.len() - header_end,
{
    if header_end < bytes.len() && bytes[header_end] != 0x0a {
        data_start(bytes, header_end + 1)
    } else {
        header_end + 1
    }
}

/// Number of whole vertices present from `start` on.
pub open spec fn vertices_present(len: nat, start: int, stride: nat) -> nat {
    if start <= len && stride > 0 {
        ((len - start) / stride as int) as nat
    } else {
        0
    }
}

/// Where the vertex data begins, or `None` where it would begin past the end.
pub fn find_data(bytes: &[u8], header_end: usize) -> (r: Option<usize>)
    requires
        header_end <= bytes@.len(),
    ensures
        match r {
            Some(s) => s <= bytes@.len() && s == data_start(bytes@, header_end as int),
            None => data_start(bytes@, header_end as int) == bytes@.len() + 1,
        },
{
    let mut at: usize = header_end;
    while at < bytes.len() && bytes[at] != 0x0a
        invariant
            header_end <= at <= bytes@.len(),
            data_start(bytes@, header_end as int) == data_start(bytes@, at as int),
        decreases bytes@.len() - at,
    {
        at += 1;
    }
    if at < bytes.len() {
        Some(at + 1)
    } else {
        None
    }
}

/// A property of a written header: its type, its name, and the bytes that it takes.
pub struct Property {
    pub ty: Seq<char>,
    pub name: Seq<char>,
    pub size: nat,
}

/// The type and the size of a property agree: one, two or eight bytes for the types
/// that say so, and four for every other.
pub open spec fn size_is_right(p: Property) -> bool {
    let one = p.ty == "char"@ || p.ty == "uchar"@ || p.ty == "int8"@ || p.ty == "uint8"@;
    let two = p.ty == "short"@ || p.ty == "ushort"@ || p.ty == "int16"@ || p.ty == "uint16"@;
    let eight = p.ty == "double"@ || p.ty == "float64"@;
    &&& one ==> p.size == 1
    &&& two ==> p.size == 2
    &&& eight ==> p.size == 8
    &&& !one && !two && !eight ==> p.size == 4
}

/// Properties that a header can list: words of the right sizes, with different names.
pub open spec fn writable(props: Seq<Property>) -> bool {
    &&& forall|k: int|
        0 <= k < props.len() ==> is_word((#[trigger] props[k]).ty) && is_word(props[k].name)
            && size_is_right(props[k])
    &&& forall|j: int, k: int|
        0 <= j < k < props.len() ==> (#[trigger] props[j]).name != (#[trigger] props[k]).name
}

/// The bytes that the first `k` properties take together.
pub open spec fn bytes_before(props: Seq<Property>, k: int) -> nat
    decreases k,
{
    if k <= 0 {
        0
    } else {
        bytes_before(props, k - 1) + props[k - 1].size
    }
}

/// One line of a header for each property.
pub open spec fn property_lines(props: Seq<Property>) -> Seq<char>
    decreases props.len(),
{
    if props.len() == 0 {
        seq![]
    } else {
        "property"@ + seq![' '] + (props[0].ty + seq![' '] + props[0].name) + seq!['\n']
            + property_lines(props.skip(1))
    }
}

/// A written header up to its end marker: the magic word, the format, how many vertices
/// there are, and their properties.
pub open spec fn header_text(count: nat, props: Seq<Property>) -> Seq<char> {
    "ply"@ + seq!['\n'] + (("format"@ + seq![' '] + ("binary_little_endian"@ + seq![' '] + "1.0"@)
        + seq!['\n'] + (("element"@ + seq![' '] + ("vertex"@ + seq![' '] + decimal(count)))
        + seq!['\n'] + property_lines(props))))
}

proof fn lemma_line_taken(h: HeaderModel, line: Seq<char>, rest: Seq<char>)
    requires
        forall|i: int| 0 <= i < line.len() ==> #[trigger] line[i] != '\n',
    ensures
        header_steps(h, line + seq!['\n'] + rest) == header_steps(
            header_step(h, words(line)),
            rest,
        ),
{
    let text = line + seq!['\n'] + rest;
    lines_end_at_their_feed(line, rest);
    let n = line.len() as int;
    assert(text.take(n) =~= line);
    assert(text.skip(n + 1) =~= rest);
}

proof fn lemma_three_words(a: Seq<char>, b: Seq<char>, c: Seq<char>)
    requires
        is_word(a),
        is_word(b),
        is_word(c),
    ensures
        words(a + seq![' '] + (b + seq![' '] + c)) == seq![a, b, c],
        forall|i: int|
            0 <= i < (a + seq![' '] + (b + seq![' '] + c)).len() ==> #[trigger] (a + seq![' '] + (b
                + seq![' '] + c))[i] != '\n',
{
    let line = a + seq![' '] + (b + seq![' '] + c);
    written_words_are_read_back(a, ' ', b + seq![' '] + c);
    written_words_are_read_back(b, ' ', c);
    written_words_are_read_back(c, ' ', c);
    assert(words(line) =~= seq![a, b, c]);
    assert forall|i: int| 0 <= i < line.len() implies #[trigger] line[i] != '\n' by {
        let n = a.len() as int;
        let m = b.len() as int;
        if i < n {
            assert(line[i] == a[i]);
        } else if i == n || i == n + 1 + m {
            assert(line[i] == ' ');
        } else if i < n + 1 + m {
            assert(line[i] == b[i - n - 1]);
        } else {
            assert(line[i] == c[i - n - m - 2]);
        }
    }
}

proof fn lemma_sizes(p: Property)
    requires
        size_is_right(p),
    ensures
        size_of_type(p.ty) == p.size,
{
}

proof fn lemma_bytes_before(props: Seq<Property>, k: int)
    requires
        0 < k <= props.len(),
    ensures
        bytes_before(props, k) == props[0].size + bytes_before(props.skip(1), k - 1),
    decreases k,
{
    reveal_with_fuel(bytes_before, 2);
    if k > 1 {
        lemma_bytes_before(props, k - 1);
        assert(props.skip(1)[k - 2] == props[k - 1]);
    }
}

/// Each property of a header begins where the one before it ends, the first one where
/// those before the list end; all of them together make the size of a vertex; and no
/// other property appears.
pub proof fn properties_follow_each_other(h: HeaderModel, props: Seq<Property>, k: int, name: Seq<char>)
    requires
        writable(props),
        0 <= k < props.len(),
    ensures
        ({
            let after = header_steps(h, property_lines(props));
            &&& after.stride == h.stride + bytes_before(props, props.len() as int)
            &&& after.formats == h.formats
            &&& after.vertex_count == h.vertex_count
            &&& after.offsets.contains_key(props[k].name)
            &&& after.offsets[props[k].name] == h.stride + bytes_before(props, k)
            &&& after.offsets.contains_key(name) <==> h.offsets.contains_key(name) || exists|j: int|
                0 <= j < props.len() && (#[trigger] props[j]).name == name
        }),
    decreases props.len(),
{
    let rest = props.skip(1);
    let first = props[0];
    reveal_strlit("property");
    reveal_strlit("format");
    reveal_strlit("element");
    assert(is_word("property"@));
    assert(first == props[0]);
    let line = "property"@ + seq![' '] + (first.ty + seq![' '] + first.name);
    lemma_three_words("property"@, first.ty, first.name);
    lemma_line_taken(h, line, property_lines(rest));
    lemma_sizes(first);
    assert("property"@ != "format"@ && "property"@ != "element"@) by {
        assert("property"@.len() == 8 && "format"@.len() == 6 && "element"@.len() == 7);
    }
    let next = header_step(h, words(line));
    assert(next.offsets == h.offsets.insert(first.name, h.stride));
    assert(next.stride == h.stride + first.size);
    assert(writable(rest)) by {
        assert forall|k: int| 0 <= k < rest.len() implies is_word((#[trigger] rest[k]).ty)
            && is_word(rest[k].name) && size_is_right(rest[k]) by {
            assert(rest[k] == props[k + 1]);
        }
        assert forall|j: int, k: int| 0 <= j < k < rest.len() implies (#[trigger] rest[j]).name != (
        #[trigger] rest[k]).name by {
            assert(rest[j] == props[j + 1] && rest[k] == props[k + 1]);
        }
    }
    let after = header_steps(h, property_lines(props));
    assert(after == header_steps(next, property_lines(rest)));
    lemma_bytes_before(props, props.len() as int);
    if rest.len() > 0 {
        let m = if k > 0 {
            k - 1
        } else {
            0
        };
        properties_follow_each_other(next, rest, m, name);
        if k > 0 {
            lemma_bytes_before(props, k);
            assert(rest[k - 1] == props[k]);
        } else {
            lemma_untouched(next, rest, first.name);
        }
        assert forall|j: int| 0 <= j < props.len() && (#[trigger] props[j]).name == name implies (
        after.offsets.contains_key(name)) by {
            if j > 0 {
                assert(rest[j - 1].name == name);
            }
        }
        if exists|j: int| 0 <= j < rest.len() && (#[trigger] rest[j]).name == name {
            let j = choose|j: int| 0 <= j < rest.len() && (#[trigger] rest[j]).name == name;
            assert(props[j + 1].name == name);
        }
    } else {
        lemma_no_more_lines(next);
    }
}

proof fn lemma_no_more_lines(h: HeaderModel)
    ensures
        header_steps(h, property_lines(Seq::<Property>::empty())) == h,
{
    let text = property_lines(Seq::<Property>::empty());
    assert(text.len() == 0);
    assert(line_len(text) == 0);
    assert(text.take(0).len() == 0);
}

proof fn lemma_untouched(h: HeaderModel, props: Seq<Property>, name: Seq<char>)
    requires
        writable(props),
        h.offsets.contains_key(name),
        forall|j: int| 0 <= j < props.len() ==> (#[trigger] props[j]).name != name,
    ensures
        header_steps(h, property_lines(props)).offsets.contains_key(name),
        header_steps(h, property_lines(props)).offsets[name] == h.offsets[name],
    decreases props.len(),
{
    if props.len() == 0 {
        assert(props =~= Seq::<Property>::empty());
        lemma_no_more_lines(h);
    } else {
        let rest = props.skip(1);
        let first = props[0];
        reveal_strlit("property");
        reveal_strlit("format");
        reveal_strlit("element");
        let line = "property"@ + seq![' '] + (first.ty + seq![' '] + first.name);
        assert(is_word("property"@));
        assert(first == props[0]);
        lemma_three_words("property"@, first.ty, first.name);
        lemma_line_taken(h, line, property_lines(rest));
        assert("property"@ != "format"@ && "property"@ != "element"@) by {
            assert("property"@.len() == 8 && "format"@.len() == 6 && "element"@.len() == 7);
        }
        let next = header_step(h, words(line));
        assert(next.offsets == h.offsets.insert(first.name, h.stride));
        assert(writable(rest)) by {
            assert forall|k: int| 0 <= k < rest.len() implies is_word((#[trigger] rest[k]).ty)
                && is_word(rest[k].name) && size_is_right(rest[k]) by {
                assert(rest[k] == props[k + 1]);
            }
            assert forall|j: int, k: int| 0 <= j < k < rest.len() implies (#[trigger] rest[j]).name
                != (#[trigger] rest[k]).name by {
                assert(rest[j] == props[j + 1] && rest[k] == props[k + 1]);
            }
        }
        assert forall|j: int| 0 <= j < rest.len() implies (#[trigger] rest[j]).name != name by {
            assert(rest[j] == props[j + 1]);
        }
        lemma_untouched(next, rest, name);
    }
}

/// A written header is read back: its format, its number of vertices, and where each
/// property lies.
pub proof fn written_headers_are_read_back(count: nat, props: Seq<Property>, k: int, name: Seq<char>)
    requires
        writable(props),
        0 <= k < props.len(),
        count <= usize::MAX,
    ensures
        ({
            let h = header_of(header_text(count, props));
            &&& h.formats == seq!["binary_little_endian"@]
            &&& h.vertex_count == count
            &&& h.stride == bytes_before(props, props.len() as int)
            &&& h.offsets.contains_key(props[k].name)
            &&& h.offsets[props[k].name] == bytes_before(props, k)
            &&& h.offsets.contains_key(name) <==> exists|j: int|
                0 <= j < props.len() && (#[trigger] props[j]).name == name
        }),
{
    reveal_strlit("ply");
    reveal_strlit("format");
    reveal_strlit("element");
    reveal_strlit("property");
    reveal_strlit("vertex");
    reveal_strlit("binary_little_endian");
    reveal_strlit("1.0");
    assert("ply"@.len() == 3 && "format"@.len() == 6 && "element"@.len() == 7 && "property"@.len()
        == 8);
    assert(is_word("ply"@) && is_word("format"@) && is_word("element"@) && is_word("vertex"@)
        && is_word("binary_little_endian"@) && is_word("1.0"@));
    decimals_are_digits(count, count);
    let third = ("element"@ + seq![' '] + ("vertex"@ + seq![' '] + decimal(count))) + seq!['\n']
        + property_lines(props);
    let second = ("format"@ + seq![' '] + ("binary_little_endian"@ + seq![' '] + "1.0"@))
        + seq!['\n'] + third;
    let h = empty_header();
    assert(forall|i: int| 0 <= i < "ply"@.len() ==> #[trigger] "ply"@[i] != '\n');
    lemma_line_taken(h, "ply"@, second);
    written_words_are_read_back("ply"@, ' ', "ply"@);
    assert(header_step(h, words("ply"@)) == h);
    lemma_three_words("format"@, "binary_little_endian"@, "1.0"@);
    lemma_line_taken(
        h,
        "format"@ + seq![' '] + ("binary_little_endian"@ + seq![' '] + "1.0"@),
        third,
    );
    let h1 = header_step(h, seq!["format"@, "binary_little_endian"@, "1.0"@]);
    assert(h1.formats =~= seq!["binary_little_endian"@]);
    lemma_three_words("element"@, "vertex"@, decimal(count));
    lemma_line_taken(
        h1,
        "element"@ + seq![' '] + ("vertex"@ + seq![' '] + decimal(count)),
        property_lines(props),
    );
    let h2 = header_step(h1, seq!["element"@, "vertex"@, decimal(count)]);
    decimal_reads_back(count, usize::MAX as nat);
    assert(h2.vertex_count == count);
    properties_follow_each_other(h2, props, k, name);
    assert(header_text(count, props) =~= "ply"@ + seq!['\n'] + second);
}

/// A line that begins with another word, an element other than the vertices, and a
/// property without a name say nothing. Of several counts of vertices the last one
/// holds, and of several properties of one name the last one's place.
pub proof fn other_lines_say_nothing(h: HeaderModel, line: Seq<Seq<char>>, other: Seq<char>)
    ensures
        line.len() == 0 ==> header_step(h, line) == h,
        line.len() > 0 && line[0] != "format"@ && line[0] != "element"@ && line[0] != "property"@
            ==> header_step(h, line) == h,
        line.len() > 1 && line[0] == "element"@ && line[1] != "vertex"@ ==> header_step(h, line)
            == h,
        line.len() == 1 && line[0] != "format"@ ==> header_step(h, line) == h,
        line.len() == 2 && line[0] == "property"@ ==> header_step(h, line) == h,
        line.len() > 1 && line[0] == "format"@ ==> header_step(h, line) == (HeaderModel {
            formats: h.formats.push(line[1]),
            ..h
        }),
        line.len() > 2 && line[0] == "property"@ ==> {
            let next = header_step(h, line);
            &&& next.offsets.contains_key(line[2]) && next.offsets[line[2]] == h.stride
            &&& other != line[2] ==> (next.offsets.contains_key(other)
                <==> h.offsets.contains_key(other)) && next.offsets[other] == h.offsets[other]
            &&& next.stride > h.stride
            &&& next.vertex_count == h.vertex_count && next.formats == h.formats
        },
        line.len() > 2 && line[0] == "element"@ && line[1] == "vertex"@ ==> {
            let next = header_step(h, line);
            &&& next.stride == h.stride && next.offsets == h.offsets && next.formats == h.formats
            &&& unsigned_value(line[2], usize::MAX as nat) matches Some(n) ==> next.vertex_count == n
        },
{
    reveal_strlit("format");
    reveal_strlit("element");
    reveal_strlit("property");
    reveal_strlit("vertex");
    assert("format"@.len() == 6 && "element"@.len() == 7 && "property"@.len() == 8);
}

/// What is found stands there, and nowhere before; where nothing is found it stands
/// nowhere.
pub proof fn the_first_place_is_found(
    haystack: &[u8],
    needle: &[u8],
    r: Option<usize>,
    i: int,
)
    requires
        call_ensures(find_subsequence, (haystack, needle), r),
    ensures
        r matches Some(at) ==> {
            &&& at + needle@.len() <= haystack@.len()
            &&& haystack@.subrange(at as int, at + needle@.len()) == needle@
            &&& 0 <= i < at ==> haystack@.subrange(i, i + needle@.len()) != needle@
        },
        r is None && 0 <= i && i + needle@.len() <= haystack@.len() ==> haystack@.subrange(
            i,
            i + needle@.len(),
        ) != needle@,
{
    let h = haystack@;
    let n = needle@;
    if let Some(at) = r {
        assert(found_at(h, n, at as int));
        if 0 <= i < at {
            assert(!found_at(h, n, i));
        }
    } else if 0 <= i && i + n.len() <= h.len() && h.subrange(i, i + n.len()) == n {
        assert(found_at(h, n, i));
    }
}

/// A vertex is read field by field: four bytes from the field's place on, the lowest
/// first, and zero for a field that the file does not have.
pub proof fn fields_are_read_in_place(
    bytes: &[u8],
    base: usize,
    fields: Vec<Option<usize>>,
    r: Vec<FloatBits>,
    k: int,
)
    requires
        vertex_fits(bytes@.len(), base as int, offsets_view(fields@)),
        call_ensures(read_vertex, (bytes, base, &fields), r),
        0 <= k < fields@.len(),
    ensures
        r@.len() == fields@.len(),
        fields@[k] is None ==> r@[k] == 0,
        fields@[k] matches Some(o) ==> r@[k] as int == bytes@[base + o] as int + 0x100 * (
        bytes@[base + o + 1] as int) + 0x1_0000 * (bytes@[base + o + 2] as int) + 0x100_0000 * (
        bytes@[base + o + 3] as int),
{
    let views = offsets_view(fields@);
    assert(r@[k] == field_value(bytes@, base as int, views[k]));
    if let Some(o) = fields@[k] {
        assert(views[k] == Some(o as nat));
        words_hold_their_bytes(bytes@, base + o);
    }
}

/// The data begins directly behind the first line feed from the header's end on; it
/// begins nowhere where there is none.
pub proof fn data_begins_behind_the_line(
    bytes: &[u8],
    header_end: usize,
    r: Option<usize>,
    i: int,
)
    requires
        header_end <= bytes@.len(),
        call_ensures(find_data, (bytes, header_end), r),
    ensures
        r matches Some(s) ==> {
            &&& header_end < s <= bytes@.len()
            &&& bytes@[s - 1] == 0x0a
            &&& header_end <= i < s - 1 ==> bytes@[i] != 0x0a
        },
        r is None && header_end <= i < bytes@.len() ==> bytes@[i] != 0x0a,
{
    lemma_data_start(bytes@, header_end as int);
}

proof fn lemma_data_start(bytes: Seq<u8>, at: int)
    requires
        0 <= at <= bytes.len(),
    ensures
        at < data_start(bytes, at) <= bytes.len() + 1,
        data_start(bytes, at) <= bytes.len() ==> bytes[data_start(bytes, at) - 1] == 0x0a,
        forall|i: int| at <= i < data_start(bytes, at) - 1 ==> #[trigger] bytes[i] != 0x0a,
    decreases bytes.len() - at,
{
    if at < bytes.len() && bytes[at] != 0x0a {
        lemma_data_start(bytes, at + 1);
    }
}

/// As many vertices are present as fit behind the start, whole ones only.
pub proof fn whole_vertices_are_present(len: nat, start: int, stride: nat)
    requires
        0 <= start,
        stride > 0,
    ensures
        start <= len ==> start + vertices_present(len, start, stride) * stride <= len,
        start <= len ==> len < start + (vertices_present(len, start, stride) + 1) * stride,
        start > len ==> vertices_present(len, start, stride) == 0,
{
    if start <= len {
        let room = len - start;
        let n = vertices_present(len, start, stride) as int;
        vstd::arithmetic::div_mod::lemma_fundamental_div_mod(room, stride as int);
        vstd::arithmetic::div_mod::lemma_mod_bound(room, stride as int);
        assert(room / stride as int >= 0) by {
            vstd::arithmetic::div_mod::lemma_div_pos_is_pos(room, stride as int);
        }
        assert(n == room / stride as int);
        assert(n * stride <= room && room < (n + 1) * stride) by (nonlinear_arith)
            requires
                room == stride * n + room % (stride as int),
                0 <= room % (stride as int) < stride,
        ;
    }
}

/// The size of a property by its type's name.
pub proof fn sizes_follow_from_types(ty: &str, r: usize, size: nat)
    requires
        call_ensures(type_size, (ty,), r),
    ensures
        size_is_right(Property { ty: ty@, name: seq![], size }) ==> r == size,
{
}

/// Scanning the text of a written header finds what was written: its vertices, and each
/// property behind those before it; see `written_headers_are_read_back`.
pub proof fn written_headers_are_scanned(
    text: &str,
    count: nat,
    props: Seq<Property>,
    r: PlyHeader,
    k: int,
)
    requires
        call_ensures(scan_header, (text,), r),
        text@ == header_text(count, props),
        count <= usize::MAX,
        writable(props),
        0 <= k < props.len(),
    ensures
        r.vertex_count == count,
        r.stride == bytes_before(props, props.len() as int),
        r.offsets@.contains_key(props[k].name),
        r.offsets@[props[k].name] == bytes_before(props, k),
{
    written_headers_are_read_back(count, props, k, props[k].name);
    assert(r@ == header_of(text@));
    assert(r@.offsets.contains_key(props[k].name));
    assert(r@.offsets[props[k].name] == r.offsets@[props[k].name]);
}

} // verus!
