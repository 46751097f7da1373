//! The taxonomy model and its parser.
//!
//! The source text is a three-level indentation format: a line with no
//! two-space indent ending in ':' opens a category, one two-space level a
//! genus, two levels a species.  Parsing segments the lines at boundary
//! lines, recursively re-splits each chunk at the next-deeper boundary,
//! and sanitizes the extracted field values.

use vstd::prelude::*;

use crate::text;

verus! {

/// The latin title, common name (a sentinel `''` means "absent"), and blurb
/// of one species.
#[derive(Clone)]
pub struct SpeInfo {
    pub title: String,
    pub common_name: String,
    pub blurb: String,
}

/// A genus: its title and its species, in source order.
#[derive(Clone)]
pub struct GenInfo {
    pub title: String,
    pub species: Vec<SpeInfo>,
}

/// A category: its slug label, its display title, and its genera in source
/// order.
#[derive(Clone)]
pub struct CatInfo {
    pub label: String,
    pub title: String,
    pub genera: Vec<GenInfo>,
}

/// One species flattened out with the names of its owners, for the search
/// index and the per-species pages.
#[derive(Clone)]
pub struct ShroomInfo {
    pub cat: String,
    pub gen: String,
    pub spe: String,
    pub latin_name: String,
    pub info: SpeInfo,
    pub url: String,
}

pub ghost struct SpeView {
    pub title: Seq<char>,
    pub common_name: Seq<char>,
    pub blurb: Seq<char>,
}

pub ghost struct GenView {
    pub title: Seq<char>,
    pub species: Seq<SpeView>,
}

pub ghost struct CatView {
    pub label: Seq<char>,
    pub title: Seq<char>,
    pub genera: Seq<GenView>,
}

pub ghost struct ShroomView {
    pub cat: Seq<char>,
    pub gen: Seq<char>,
    pub spe: Seq<char>,
    pub latin_name: Seq<char>,
    pub info: SpeView,
    pub url: Seq<char>,
}

impl View for SpeInfo {
    type V = SpeView;

    open spec fn view(&self) -> SpeView {
        SpeView { title: self.title@, common_name: self.common_name@, blurb: self.blurb@ }
    }
}

impl DeepView for SpeInfo {
    type V = SpeView;

    open spec fn deep_view(&self) -> SpeView {
        self.view()
    }
}

impl View for GenInfo {
    type V = GenView;

    open spec fn view(&self) -> GenView {
        GenView { title: self.title@, species: self.species.deep_view() }
    }
}

impl DeepView for GenInfo {
    type V = GenView;

    open spec fn deep_view(&self) -> GenView {
        self.view()
    }
}

impl View for CatInfo {
    type V = CatView;

    open spec fn view(&self) -> CatView {
        CatView {
            label: self.label@,
            title: self.title@,
            genera: self.genera.deep_view(),
        }
    }
}

impl DeepView for CatInfo {
    type V = CatView;

    open spec fn deep_view(&self) -> CatView {
        self.view()
    }
}

impl View for ShroomInfo {
    type V = ShroomView;

    open spec fn view(&self) -> ShroomView {
        ShroomView {
            cat: self.cat@,
            gen: self.gen@,
            spe: self.spe@,
            latin_name: self.latin_name@,
            info: self.info@,
            url: self.url@,
        }
    }
}

impl DeepView for ShroomInfo {
    type V = ShroomView;

    open spec fn deep_view(&self) -> ShroomView {
        self.view()
    }
}

/// The three nesting levels of the source format.
#[derive(Clone, Copy)]
pub enum Layer {
    Category,
    Genus,
    Species,
}

pub open spec fn ends_colon(l: Seq<char>) -> bool {
    l.len() > 0 && l.last() == ':'
}

pub open spec fn indent2(l: Seq<char>) -> bool {
    l.len() >= 2 && l[0] == ' ' && l[1] == ' '
}

pub open spec fn indent3(l: Seq<char>) -> bool {
    l.len() >= 3 && l[0] == ' ' && l[1] == ' ' && l[2] == ' '
}

pub open spec fn indent4(l: Seq<char>) -> bool {
    l.len() >= 4 && l[0] == ' ' && l[1] == ' ' && l[2] == ' ' && l[3] == ' '
}

/// Whether `l` opens a new chunk at nesting level `layer`.
pub open spec fn is_boundary(layer: Layer, l: Seq<char>) -> bool {
    match layer {
        Layer::Category => ends_colon(l) && !indent2(l),
        Layer::Genus => ends_colon(l) && indent2(l) && !indent3(l),
        Layer::Species => ends_colon(l) && indent4(l),
    }
}

impl Layer {
    /// The boundary test for this layer.
    pub fn condition(&self, s: &str) -> (r: bool)
        ensures
            r == is_boundary(*self, s@),
    {
        let n = s.unicode_len();
        let colon = if n == 0 {
            false
        } else {
            s.get_char(n - 1) == ':'
        };
        match self {
            Layer::Category => {
                let ind = n >= 2 && s.get_char(0) == ' ' && s.get_char(1) == ' ';
                colon && !ind
            },
            Layer::Genus => {
                let ind2 = n >= 2 && s.get_char(0) == ' ' && s.get_char(1) == ' ';
                let ind3 = n >= 3 && s.get_char(0) == ' ' && s.get_char(1) == ' '
                    && s.get_char(2) == ' ';
                colon && ind2 && !ind3
            },
            Layer::Species => {
                let ind4 = n >= 4 && s.get_char(0) == ' ' && s.get_char(1) == ' '
                    && s.get_char(2) == ' ' && s.get_char(3) == ' ';
                colon && ind4
            },
        }
    }
}

/// The indices of the boundary lines of `layer` within `lines`, in order.
pub open spec fn bidx(lines: Seq<Seq<char>>, layer: Layer) -> Seq<int>
    decreases lines.len(),
{
    if lines.len() == 0 {
        Seq::<int>::empty()
    } else if is_boundary(layer, lines.last()) {
        bidx(lines.drop_last(), layer).push(lines.len() - 1)
    } else {
        bidx(lines.drop_last(), layer)
    }
}

/// How many lines of `lines` are boundaries of `layer`.
pub open spec fn count_boundaries(lines: Seq<Seq<char>>, layer: Layer) -> nat {
    bidx(lines, layer).len()
}

/// The boundary indices are exactly the positions of the boundary lines,
/// in strictly increasing order.
pub proof fn lemma_bidx(lines: Seq<Seq<char>>, layer: Layer)
    ensures
        forall|k: int|
            0 <= k < bidx(lines, layer).len() ==> 0 <= #[trigger] bidx(lines, layer)[k]
                < lines.len() && is_boundary(layer, lines[bidx(lines, layer)[k]]),
        forall|k1: int, k2: int|
            0 <= k1 < k2 < bidx(lines, layer).len() ==> bidx(lines, layer)[k1] < bidx(
                lines,
                layer,
            )[k2],
        forall|i: int|
            0 <= i < lines.len() && is_boundary(layer, lines[i]) ==> bidx(
                lines,
                layer,
            ).contains(i),
    decreases lines.len(),
{
    if lines.len() > 0 {
        let pre = lines.drop_last();
        lemma_bidx(pre, layer);
        assert(forall|i: int| 0 <= i < pre.len() ==> pre[i] == lines[i]);
        assert forall|i: int|
            0 <= i < lines.len() && is_boundary(layer, lines[i]) implies bidx(
            lines,
            layer,
        ).contains(i) by {
            if i < lines.len() - 1 {
                assert(bidx(pre, layer).contains(i));
                let k = choose|k: int| 0 <= k < bidx(pre, layer).len() && bidx(pre, layer)[k] == i;
                assert(bidx(lines, layer)[k] == i);
            } else {
                assert(is_boundary(layer, lines.last()));
                assert(bidx(lines, layer).last() == i);
            }
        }
    }
}

/// The end (exclusive) of chunk `k` of the `layer`-level segmentation.
pub open spec fn chunk_end(lines: Seq<Seq<char>>, layer: Layer, k: int) -> int {
    if k + 1 < bidx(lines, layer).len() {
        bidx(lines, layer)[k + 1]
    } else {
        lines.len() as int
    }
}

/// The `layer`-level segmentation of `lines`: one chunk per boundary line,
/// spanning from it up to the next boundary line or the end.
pub open spec fn chunks_spec(lines: Seq<Seq<char>>, layer: Layer) -> Seq<Seq<Seq<char>>> {
    Seq::new(
        bidx(lines, layer).len(),
        |k: int| lines.subrange(bidx(lines, layer)[k], chunk_end(lines, layer, k)),
    )
}

fn slice_clone(v: &Vec<String>, from: usize, to: usize) -> (r: Vec<String>)
    requires
        from <= to <= v.len(),
    ensures
        r.deep_view() == v.deep_view().subrange(from as int, to as int),
{
    let mut r: Vec<String> = Vec::new();
    let mut i: usize = from;
    while i < to
        invariant
            from <= i <= to <= v.len(),
            r.deep_view() == v.deep_view().subrange(from as int, i as int),
        decreases to - i,
    {
        let ghost before = r.deep_view();
        r.push(v[i].clone());
        proof {
            assert(r.deep_view() =~= before.push(v.deep_view()[i as int]));
            assert(r.deep_view() =~= v.deep_view().subrange(from as int, i + 1));
        }
        i += 1;
    }
    r
}

/// Segments `lines` into `layer`-level chunks: a chunk begins at each line
/// satisfying the layer's boundary test and runs to the next such line;
/// lines before the first boundary belong to no chunk.
pub fn mangle(lines: &Vec<String>, layer: Layer) -> (r: Vec<Vec<String>>)
    ensures
        r.deep_view() == chunks_spec(lines.deep_view(), layer),
{
    let ghost deep = lines.deep_view();
    let n = lines.len();
    let mut divisions: Vec<usize> = Vec::new();
    let mut i: usize = 0;
    proof {
        assert(deep.take(0) =~= Seq::<Seq<char>>::empty());
        assert(divisions@.map_values(|u: usize| u as int) =~= bidx(deep.take(0), layer));
    }
    while i < n
        invariant
            i <= n,
            n == lines.len(),
            deep == lines.deep_view(),
            divisions@.map_values(|u: usize| u as int) == bidx(deep.take(i as int), layer),
            forall|k: int| 0 <= k < divisions.len() ==> #[trigger] divisions@[k] < i,
        decreases n - i,
    {
        let ghost prefix = deep.take(i as int);
        let ghost next = deep.take(i + 1);
        proof {
            assert(next.drop_last() =~= prefix);
            assert(next.last() == deep[i as int]);
            assert(deep[i as int] == lines@[i as int]@);
        }
        if layer.condition(lines[i].as_str()) {
            divisions.push(i);
            proof {
                assert(divisions@.map_values(|u: usize| u as int) =~= bidx(
                    prefix,
                    layer,
                ).push(i as int));
            }
        }
        i += 1;
    }
    proof {
        assert(deep.take(n as int) =~= deep);
        lemma_bidx(deep, layer);
        assert(forall|j: int|
            0 <= j < divisions.len() ==> #[trigger] divisions@[j] as int == bidx(deep, layer)[j]);
    }
    let m = divisions.len();
    let mut out: Vec<Vec<String>> = Vec::new();
    let mut k: usize = 0;
    proof {
        assert(out.deep_view() =~= chunks_spec(deep, layer).take(0));
    }
    while k < m
        invariant
            k <= m,
            m == divisions.len(),
            n == lines.len(),
            deep == lines.deep_view(),
            divisions@.map_values(|u: usize| u as int) == bidx(deep, layer),
            forall|j: int| 0 <= j < m ==> #[trigger] divisions@[j] < n,
            forall|k1: int, k2: int|
                0 <= k1 < k2 < m ==> divisions@[k1] < divisions@[k2],
            out.deep_view() == chunks_spec(deep, layer).take(k as int),
        decreases m - k,
    {
        let from = divisions[k];
        let to = if k + 1 < m {
            divisions[k + 1]
        } else {
            n
        };
        let ghost before = out.deep_view();
        let chunk = slice_clone(lines, from, to);
        out.push(chunk);
        proof {
            assert(bidx(deep, layer)[k as int] == from as int);
            assert(chunk_end(deep, layer, k as int) == to as int);
            assert(out.deep_view() =~= before.push(chunks_spec(deep, layer)[k as int]));
            assert(out.deep_view() =~= chunks_spec(deep, layer).take(k + 1));
        }
        k += 1;
    }
    proof {
        assert(chunks_spec(deep, layer).take(m as int) =~= chunks_spec(deep, layer));
    }
    out
}

/// One recognized field prefix removed from the front of `s`, if present.
pub open spec fn strip_one_prefix(s: Seq<char>) -> Seq<char> {
    if text::has_prefix(s, "blurb: "@) {
        s.skip("blurb: "@.len() as int)
    } else if text::has_prefix(s, "title: "@) {
        s.skip("title: "@.len() as int)
    } else if text::has_prefix(s, "common_name: "@) {
        s.skip("common_name: "@.len() as int)
    } else if text::has_prefix(s, "name: "@) {
        s.skip("name: "@.len() as int)
    } else {
        s
    }
}

pub open spec fn strip_trailing_colon(s: Seq<char>) -> Seq<char> {
    if s.len() > 0 && s.last() == ':' {
        s.drop_last()
    } else {
        s
    }
}

/// A field value cleaned for use: whitespace trimmed, at most one known
/// field prefix removed, and a trailing ':' removed.
pub open spec fn sanitize_spec(s: Seq<char>) -> Seq<char> {
    strip_trailing_colon(strip_one_prefix(text::trim_spec(s)))
}

fn strip_known_prefix(s: &str, p: &str) -> (r: String)
    requires
        text::has_prefix(s@, p@),
    ensures
        r@ == s@.skip(p@.len() as int),
{
    let r = s.substring_char(p.unicode_len(), s.unicode_len()).to_owned();
    proof {
        assert(s@.subrange(p@.len() as int, s@.len() as int) =~= s@.skip(p@.len() as int));
    }
    r
}

/// Sanitizes one line: trim, strip at most one recognized field prefix,
/// strip a trailing colon.
pub fn sanitise_str(line: &str) -> (r: String)
    ensures
        r@ == sanitize_spec(line@),
{
    let t = text::trim(line);
    let stripped: String = if text::starts_with(t.as_str(), "blurb: ") {
        strip_known_prefix(t.as_str(), "blurb: ")
    } else if text::starts_with(t.as_str(), "title: ") {
        strip_known_prefix(t.as_str(), "title: ")
    } else if text::starts_with(t.as_str(), "common_name: ") {
        strip_known_prefix(t.as_str(), "common_name: ")
    } else if text::starts_with(t.as_str(), "name: ") {
        strip_known_prefix(t.as_str(), "name: ")
    } else {
        t
    };
    if text::ends_with_char(stripped.as_str(), ':') {
        let n = stripped.as_str().unicode_len();
        let r = stripped.as_str().substring_char(0, n - 1).to_owned();
        proof {
            assert(stripped@.subrange(0, stripped@.len() - 1) =~= stripped@.drop_last());
        }
        r
    } else {
        stripped
    }
}

/// Sanitizes an optional line; a missing line yields the empty string.
pub fn sanitise(line: Option<&String>) -> (r: String)
    ensures
        match line {
            Some(l) => r@ == sanitize_spec(l@),
            None => r@ == Seq::<char>::empty(),
        },
{
    match line {
        Some(l) => sanitise_str(l.as_str()),
        None => String::new(),
    }
}

/// The line of a chunk at index `i`, or nothing where the chunk is shorter.
pub open spec fn line_or_empty(chunk: Seq<Seq<char>>, i: int) -> Seq<char> {
    if 0 <= i < chunk.len() {
        chunk[i]
    } else {
        Seq::<char>::empty()
    }
}

/// The sanitized first line of a chunk that, once trimmed, starts with the
/// title marker; empty if none does.
pub open spec fn title_of(chunk: Seq<Seq<char>>) -> Seq<char>
    decreases chunk.len(),
{
    if chunk.len() == 0 {
        Seq::<char>::empty()
    } else if text::has_prefix(text::trim_spec(chunk[0]), "title: "@) {
        sanitize_spec(chunk[0])
    } else {
        title_of(chunk.drop_first())
    }
}

/// Finds and sanitizes a category chunk's title line.
pub fn find_title(chunk: &Vec<String>) -> (r: String)
    ensures
        r@ == title_of(chunk.deep_view()),
{
    let ghost deep = chunk.deep_view();
    let n = chunk.len();
    let mut i: usize = 0;
    proof {
        assert(deep.skip(0) =~= deep);
    }
    while i < n
        invariant
            i <= n,
            n == chunk.len(),
            deep == chunk.deep_view(),
            title_of(deep) == title_of(deep.skip(i as int)),
        decreases n - i,
    {
        let ghost tail = deep.skip(i as int);
        proof {
            assert(tail[0] == deep[i as int]);
            assert(tail.drop_first() =~= deep.skip(i + 1));
        }
        let t = text::trim(chunk[i].as_str());
        if text::starts_with(t.as_str(), "title: ") {
            return sanitise_str(chunk[i].as_str());
        }
        i += 1;
    }
    proof {
        assert(deep.skip(n as int) =~= Seq::<Seq<char>>::empty());
    }
    String::new()
}

/// Sanitizing nothing yields nothing.
pub proof fn lemma_sanitize_empty()
    ensures
        sanitize_spec(Seq::<char>::empty()) == Seq::<char>::empty(),
{
    reveal_strlit("blurb: ");
    reveal_strlit("title: ");
    reveal_strlit("common_name: ");
    reveal_strlit("name: ");
}

/// The blurb built from the chunk's lines below index 2, up to line `i`
/// (exclusive): each line sanitized, joined with newlines.
pub open spec fn blurb_upto(chunk: Seq<Seq<char>>, i: int) -> Seq<char>
    decreases i,
{
    if i <= 3 {
        sanitize_spec(line_or_empty(chunk, 2))
    } else {
        blurb_upto(chunk, i - 1) + "\n"@ + sanitize_spec(line_or_empty(chunk, i - 1))
    }
}

/// A species' blurb: all lines after the name and the common name,
/// sanitized and joined with newlines; empty where there are none.
pub open spec fn blurb_of(chunk: Seq<Seq<char>>) -> Seq<char> {
    if chunk.len() <= 2 {
        Seq::<char>::empty()
    } else {
        blurb_upto(chunk, chunk.len() as int)
    }
}

/// A species chunk read field by field: first line the latin title, second
/// the common name, the remaining lines the blurb; missing lines yield
/// empty fields.
pub open spec fn parse_species_chunk(chunk: Seq<Seq<char>>) -> SpeView {
    SpeView {
        title: sanitize_spec(line_or_empty(chunk, 0)),
        common_name: sanitize_spec(line_or_empty(chunk, 1)),
        blurb: blurb_of(chunk),
    }
}

/// A genus chunk: its first line titles it; its species chunks follow.
pub open spec fn parse_genus_chunk(chunk: Seq<Seq<char>>) -> GenView {
    GenView {
        title: sanitize_spec(line_or_empty(chunk, 0)),
        species: chunks_spec(chunk, Layer::Species).map_values(
            |c: Seq<Seq<char>>| parse_species_chunk(c),
        ),
    }
}

/// A category chunk: its first line is the label, its title line is searched
/// anywhere in the chunk, and its genus chunks follow.
pub open spec fn parse_category_chunk(chunk: Seq<Seq<char>>) -> CatView {
    CatView {
        label: sanitize_spec(line_or_empty(chunk, 0)),
        title: title_of(chunk),
        genera: chunks_spec(chunk, Layer::Genus).map_values(
            |c: Seq<Seq<char>>| parse_genus_chunk(c),
        ),
    }
}

/// The taxonomy a source text denotes.
pub open spec fn parse_taxonomy(lines: Seq<Seq<char>>) -> Seq<CatView> {
    chunks_spec(lines, Layer::Category).map_values(
        |c: Seq<Seq<char>>| parse_category_chunk(c),
    )
}

fn first_line(chunk: &Vec<String>) -> (r: Option<&String>)
    ensures
        match r {
            Some(l) => chunk.len() > 0 && l@ == chunk.deep_view()[0],
            None => chunk.len() == 0,
        },
{
    if chunk.len() > 0 {
        Some(&chunk[0])
    } else {
        None
    }
}

fn parse_species_exec(chunk: &Vec<String>) -> (r: SpeInfo)
    ensures
        r@ == parse_species_chunk(chunk.deep_view()),
{
    proof {
        lemma_sanitize_empty();
    }
    let title = sanitise(first_line(chunk));
    let common_name = sanitise(
        if chunk.len() > 1 {
            Some(&chunk[1])
        } else {
            None
        },
    );
    let ghost deep = chunk.deep_view();
    let n = chunk.len();
    let blurb: String;
    if n > 2 {
        let mut b = sanitise_str(chunk[2].as_str());
        let mut i: usize = 3;
        while i < n
            invariant
                3 <= i <= n,
                n == chunk.len(),
                deep == chunk.deep_view(),
                b@ == blurb_upto(deep, i as int),
            decreases n - i,
        {
            b.append("\n");
            let line = sanitise_str(chunk[i].as_str());
            b.append(line.as_str());
            i += 1;
        }
        blurb = b;
    } else {
        blurb = String::new();
    }
    SpeInfo { title, common_name, blurb }
}

fn parse_genus_exec(chunk: &Vec<String>) -> (r: GenInfo)
    ensures
        r@ == parse_genus_chunk(chunk.deep_view()),
{
    proof {
        lemma_sanitize_empty();
    }
    let title = sanitise(first_line(chunk));
    let spe_chunks = mangle(chunk, Layer::Species);
    let ghost scs = chunks_spec(chunk.deep_view(), Layer::Species);
    let mut species: Vec<SpeInfo> = Vec::new();
    let n = spe_chunks.len();
    let mut k: usize = 0;
    proof {
        assert(species.deep_view() =~= scs.take(0).map_values(
            |c: Seq<Seq<char>>| parse_species_chunk(c),
        ));
    }
    while k < n
        invariant
            k <= n,
            n == spe_chunks.len(),
            spe_chunks.deep_view() == scs,
            species.deep_view() == scs.take(k as int).map_values(
                |c: Seq<Seq<char>>| parse_species_chunk(c),
            ),
        decreases n - k,
    {
        let ghost before = species.deep_view();
        let spe = parse_species_exec(&spe_chunks[k]);
        species.push(spe);
        proof {
            assert(species.deep_view() =~= before.push(parse_species_chunk(scs[k as int])));
            assert(species.deep_view() =~= scs.take(k + 1).map_values(
                |c: Seq<Seq<char>>| parse_species_chunk(c),
            ));
        }
        k += 1;
    }
    proof {
        assert(scs.take(n as int) =~= scs);
    }
    GenInfo { title, species }
}

fn parse_category_exec(chunk: &Vec<String>) -> (r: CatInfo)
    ensures
        r@ == parse_category_chunk(chunk.deep_view()),
{
    proof {
        lemma_sanitize_empty();
    }
    let label = sanitise(first_line(chunk));
    let title = find_title(chunk);
    let gen_chunks = mangle(chunk, Layer::Genus);
    let ghost gcs = chunks_spec(chunk.deep_view(), Layer::Genus);
    let mut genera: Vec<GenInfo> = Vec::new();
    let n = gen_chunks.len();
    let mut k: usize = 0;
    proof {
        assert(genera.deep_view() =~= gcs.take(0).map_values(
            |c: Seq<Seq<char>>| parse_genus_chunk(c),
        ));
    }
    while k < n
        invariant
            k <= n,
            n == gen_chunks.len(),
            gen_chunks.deep_view() == gcs,
            genera.deep_view() == gcs.take(k as int).map_values(
                |c: Seq<Seq<char>>| parse_genus_chunk(c),
            ),
        decreases n - k,
    {
        let ghost before = genera.deep_view();
        let gen = parse_genus_exec(&gen_chunks[k]);
        genera.push(gen);
        proof {
            assert(genera.deep_view() =~= before.push(parse_genus_chunk(gcs[k as int])));
            assert(genera.deep_view() =~= gcs.take(k + 1).map_values(
                |c: Seq<Seq<char>>| parse_genus_chunk(c),
            ));
        }
        k += 1;
    }
    proof {
        assert(gcs.take(n as int) =~= gcs);
    }
    CatInfo { label, title, genera }
}

/// One search-index entry for a species owned by the named category and
/// genus.
pub open spec fn species_entry(cat: Seq<char>, gen: Seq<char>, spe: SpeView) -> ShroomView {
    ShroomView {
        cat: cat,
        gen: gen,
        spe: spe.title,
        latin_name: gen + " "@ + spe.title,
        info: spe,
        url: "/"@ + cat + "/"@ + gen + "/"@ + spe.title,
    }
}

pub open spec fn genus_entries(cat: Seq<char>, gen: GenView) -> Seq<ShroomView> {
    gen.species.map_values(|s: SpeView| species_entry(cat, gen.title, s))
}

pub open spec fn cat_entries(cat: CatView) -> Seq<ShroomView> {
    cat.genera.map_values(|g: GenView| genus_entries(cat.label, g)).flatten()
}

/// Every species of the taxonomy flattened into one list, in source order.
pub open spec fn shroompedia_spec(cats: Seq<CatView>) -> Seq<ShroomView> {
    cats.map_values(|c: CatView| cat_entries(c)).flatten()
}

fn species_entry_exec(cat: &String, gen: &String, spe: &SpeInfo) -> (r: ShroomInfo)
    ensures
        r@ == species_entry(cat@, gen@, spe@),
{
    let mut latin_name = gen.clone();
    latin_name.append(" ");
    latin_name.append(spe.title.as_str());
    let mut url = String::new();
    url.append("/");
    url.append(cat.as_str());
    url.append("/");
    url.append(gen.as_str());
    url.append("/");
    url.append(spe.title.as_str());
    let info = SpeInfo {
        title: spe.title.clone(),
        common_name: spe.common_name.clone(),
        blurb: spe.blurb.clone(),
    };
    ShroomInfo {
        cat: cat.clone(),
        gen: gen.clone(),
        spe: spe.title.clone(),
        latin_name,
        info,
        url,
    }
}

fn push_genus_entries(out: &mut Vec<ShroomInfo>, cat: &String, gen: &GenInfo)
    ensures
        final(out).deep_view() == old(out).deep_view() + genus_entries(cat@, gen@),
{
    let ghost base = out.deep_view();
    let n = gen.species.len();
    let mut k: usize = 0;
    proof {
        assert(base + genus_entries(cat@, gen@).take(0) =~= base);
    }
    while k < n
        invariant
            k <= n,
            n == gen.species.len(),
            out.deep_view() == base + genus_entries(cat@, gen@).take(k as int),
        decreases n - k,
    {
        let ghost before = out.deep_view();
        let entry = species_entry_exec(cat, &gen.title, &gen.species[k]);
        out.push(entry);
        proof {
            assert(genus_entries(cat@, gen@)[k as int] == species_entry(
                cat@,
                gen.title@,
                gen.species.deep_view()[k as int],
            ));
            assert(out.deep_view() =~= before.push(genus_entries(cat@, gen@)[k as int]));
            assert(out.deep_view() =~= base + genus_entries(cat@, gen@).take(k + 1));
        }
        k += 1;
    }
    proof {
        assert(genus_entries(cat@, gen@).take(n as int) =~= genus_entries(cat@, gen@));
    }
}

fn push_cat_entries(out: &mut Vec<ShroomInfo>, cat: &CatInfo)
    ensures
        final(out).deep_view() == old(out).deep_view() + cat_entries(cat@),
{
    let ghost base = out.deep_view();
    let ghost per_genus = cat@.genera.map_values(|g: GenView| genus_entries(cat@.label, g));
    let n = cat.genera.len();
    let mut k: usize = 0;
    proof {
        assert(per_genus.take(0) =~= Seq::<Seq<ShroomView>>::empty());
        assert(per_genus.take(0).flatten() =~= Seq::<ShroomView>::empty());
        assert(base + per_genus.take(0).flatten() =~= base);
    }
    while k < n
        invariant
            k <= n,
            n == cat.genera.len(),
            per_genus == cat@.genera.map_values(|g: GenView| genus_entries(cat@.label, g)),
            out.deep_view() == base + per_genus.take(k as int).flatten(),
        decreases n - k,
    {
        let ghost before = out.deep_view();
        push_genus_entries(out, &cat.label, &cat.genera[k]);
        proof {
            let piece = genus_entries(cat@.label, cat.genera.deep_view()[k as int]);
            assert(per_genus[k as int] == piece);
            vstd::seq_lib::lemma_flatten_concat(per_genus.take(k as int), seq![piece]);
            seq![piece].lemma_flatten_one_element();
            assert(per_genus.take(k as int) + seq![piece] =~= per_genus.take(k + 1));
            assert(out.deep_view() =~= base + per_genus.take(k + 1).flatten());
        }
        k += 1;
    }
    proof {
        assert(per_genus.take(n as int) =~= per_genus);
    }
}

/// Flattens the taxonomy into its search-index entries.
pub fn shroompedia(cats: &Vec<CatInfo>) -> (r: Vec<ShroomInfo>)
    ensures
        r.deep_view() == shroompedia_spec(cats.deep_view()),
{
    let ghost per_cat = cats.deep_view().map_values(|c: CatView| cat_entries(c));
    let mut out: Vec<ShroomInfo> = Vec::new();
    let n = cats.len();
    let mut i: usize = 0;
    proof {
        assert(per_cat.take(0) =~= Seq::<Seq<ShroomView>>::empty());
        assert(per_cat.take(0).flatten() =~= Seq::<ShroomView>::empty());
        assert(out.deep_view() =~= per_cat.take(0).flatten());
    }
    while i < n
        invariant
            i <= n,
            n == cats.len(),
            per_cat == cats.deep_view().map_values(|c: CatView| cat_entries(c)),
            out.deep_view() == per_cat.take(i as int).flatten(),
        decreases n - i,
    {
        push_cat_entries(&mut out, &cats[i]);
        proof {
            let piece = cat_entries(cats.deep_view()[i as int]);
            assert(per_cat[i as int] == piece);
            vstd::seq_lib::lemma_flatten_concat(per_cat.take(i as int), seq![piece]);
            seq![piece].lemma_flatten_one_element();
            assert(per_cat.take(i as int) + seq![piece] =~= per_cat.take(i + 1));
            assert(out.deep_view() =~= per_cat.take(i + 1).flatten());
        }
        i += 1;
    }
    proof {
        assert(per_cat.take(n as int) =~= per_cat);
    }
    out
}

/// Parses the whole source text into the taxonomy and its search index.
pub fn construct(source: &str) -> (r: (Vec<CatInfo>, Vec<ShroomInfo>))
    ensures
        r.0.deep_view() == parse_taxonomy(text::lines_spec(source@)),
        r.1.deep_view() == shroompedia_spec(parse_taxonomy(text::lines_spec(source@))),
{
    let ls = text::lines(source);
    let cat_chunks = mangle(&ls, Layer::Category);
    let ghost ccs = chunks_spec(text::lines_spec(source@), Layer::Category);
    let mut cats: Vec<CatInfo> = Vec::new();
    let n = cat_chunks.len();
    let mut k: usize = 0;
    proof {
        assert(cats.deep_view() =~= ccs.take(0).map_values(
            |c: Seq<Seq<char>>| parse_category_chunk(c),
        ));
    }
    while k < n
        invariant
            k <= n,
            n == cat_chunks.len(),
            cat_chunks.deep_view() == ccs,
            cats.deep_view() == ccs.take(k as int).map_values(
                |c: Seq<Seq<char>>| parse_category_chunk(c),
            ),
        decreases n - k,
    {
        let ghost before = cats.deep_view();
        let cat = parse_category_exec(&cat_chunks[k]);
        cats.push(cat);
        proof {
            assert(cats.deep_view() =~= before.push(parse_category_chunk(ccs[k as int])));
            assert(cats.deep_view() =~= ccs.take(k + 1).map_values(
                |c: Seq<Seq<char>>| parse_category_chunk(c),
            ));
        }
        k += 1;
    }
    proof {
        assert(ccs.take(n as int) =~= ccs);
    }
    let pedia = shroompedia(&cats);
    (cats, pedia)
}

/// Builds the taxonomy from the source text when it could be read; an
/// unreadable source degrades to the empty taxonomy.
pub fn yaml(source: Option<&String>) -> (r: (Vec<CatInfo>, Vec<ShroomInfo>))
    ensures
        match source {
            Some(s) => r.0.deep_view() == parse_taxonomy(text::lines_spec(s@))
                && r.1.deep_view() == shroompedia_spec(parse_taxonomy(text::lines_spec(s@))),
            None => r.0@.len() == 0 && r.1@.len() == 0,
        },
{
    match source {
        Some(s) => construct(s.as_str()),
        None => (Vec::new(), Vec::new()),
    }
}

/// How many genera the parsed categories hold in all.
pub open spec fn total_genera(cats: Seq<CatView>) -> nat
    decreases cats.len(),
{
    if cats.len() == 0 {
        0
    } else {
        total_genera(cats.drop_last()) + cats.last().genera.len()
    }
}

/// How many species a list of genera holds in all.
pub open spec fn genera_species(gens: Seq<GenView>) -> nat
    decreases gens.len(),
{
    if gens.len() == 0 {
        0
    } else {
        genera_species(gens.drop_last()) + gens.last().species.len()
    }
}

/// How many species the parsed categories hold in all.
pub open spec fn total_species(cats: Seq<CatView>) -> nat
    decreases cats.len(),
{
    if cats.len() == 0 {
        0
    } else {
        total_species(cats.drop_last()) + genera_species(cats.last().genera)
    }
}

/// A well-formed source: every genus boundary has a category boundary
/// somewhere above it, and every species boundary has a genus boundary
/// above it within the same category chunk.
pub open spec fn well_formed(lines: Seq<Seq<char>>) -> bool {
    (forall|i: int|
        0 <= i < lines.len() && #[trigger] is_boundary(Layer::Genus, lines[i]) ==> exists|j: int|
            0 <= j < i && is_boundary(Layer::Category, lines[j])) && (forall|i: int|
        0 <= i < lines.len() && #[trigger] is_boundary(Layer::Species, lines[i])
            ==> exists|j: int|
            0 <= j < i && is_boundary(Layer::Genus, lines[j]) && (forall|k: int|
                j < k <= i ==> !is_boundary(Layer::Category, lines[k])))
}

proof fn lemma_count_concat(a: Seq<Seq<char>>, b: Seq<Seq<char>>, layer: Layer)
    ensures
        count_boundaries(a + b, layer) == count_boundaries(a, layer) + count_boundaries(b, layer),
    decreases b.len(),
{
    if b.len() == 0 {
        assert(a + b =~= a);
    } else {
        lemma_count_concat(a, b.drop_last(), layer);
        assert((a + b).drop_last() =~= a + b.drop_last());
        assert((a + b).last() == b.last());
    }
}

proof fn lemma_count_split(s: Seq<Seq<char>>, x: int, y: int, z: int, layer: Layer)
    requires
        0 <= x <= y <= z <= s.len(),
    ensures
        count_boundaries(s.subrange(x, z), layer) == count_boundaries(s.subrange(x, y), layer)
            + count_boundaries(s.subrange(y, z), layer),
{
    assert(s.subrange(x, z) =~= s.subrange(x, y) + s.subrange(y, z));
    lemma_count_concat(s.subrange(x, y), s.subrange(y, z), layer);
}

proof fn lemma_count_zero(s: Seq<Seq<char>>, layer: Layer)
    requires
        forall|i: int| 0 <= i < s.len() ==> !is_boundary(layer, #[trigger] s[i]),
    ensures
        count_boundaries(s, layer) == 0,
    decreases s.len(),
{
    if s.len() > 0 {
        let t = s.drop_last();
        assert(forall|i: int| 0 <= i < t.len() ==> !is_boundary(layer, #[trigger] t[i]));
        lemma_count_zero(t, layer);
    }
}

/// Partial sums of one boundary count over the chunks of another layer.
pub open spec fn sum_counts_upto(lines: Seq<Seq<char>>, cl: Layer, tl: Layer, k: int) -> nat
    decreases k,
{
    if k <= 0 {
        0
    } else {
        sum_counts_upto(lines, cl, tl, k - 1) + count_boundaries(
            chunks_spec(lines, cl)[k - 1],
            tl,
        )
    }
}

proof fn lemma_sum_upto_prefix(lines: Seq<Seq<char>>, cl: Layer, tl: Layer, k: int)
    requires
        0 <= k <= bidx(lines, cl).len(),
    ensures
        sum_counts_upto(lines, cl, tl, k) == if k == 0 {
            0nat
        } else {
            count_boundaries(
                lines.subrange(bidx(lines, cl)[0], chunk_end(lines, cl, k - 1)),
                tl,
            )
        },
    decreases k,
{
    lemma_bidx(lines, cl);
    if k >= 1 {
        assert(sum_counts_upto(lines, cl, tl, 0) == 0);
    }
    if k == 1 {
        assert(chunks_spec(lines, cl)[0] == lines.subrange(
            bidx(lines, cl)[0],
            chunk_end(lines, cl, 0),
        ));
    }
    if k > 1 {
        lemma_sum_upto_prefix(lines, cl, tl, k - 1);
        let b0 = bidx(lines, cl)[0];
        let bk = bidx(lines, cl)[k - 1];
        let ek = chunk_end(lines, cl, k - 1);
        assert(chunk_end(lines, cl, k - 2) == bk);
        assert(b0 <= bk);
        assert(bk < ek <= lines.len());
        lemma_count_split(lines, b0, bk, ek, tl);
        assert(chunks_spec(lines, cl)[k - 1] == lines.subrange(bk, ek));
    }
}

proof fn lemma_total_genera_sum(lines: Seq<Seq<char>>, k: int)
    requires
        0 <= k <= bidx(lines, Layer::Category).len(),
    ensures
        total_genera(parse_taxonomy(lines).take(k)) == sum_counts_upto(
            lines,
            Layer::Category,
            Layer::Genus,
            k,
        ),
    decreases k,
{
    let cats = parse_taxonomy(lines);
    if k == 0 {
        assert(cats.take(0) =~= Seq::<CatView>::empty());
    } else {
        lemma_total_genera_sum(lines, k - 1);
        assert(cats.take(k).drop_last() =~= cats.take(k - 1));
        let chunk = chunks_spec(lines, Layer::Category)[k - 1];
        assert(cats.take(k).last() == parse_category_chunk(chunk));
        assert(parse_category_chunk(chunk).genera.len() == count_boundaries(
            chunk,
            Layer::Genus,
        ));
    }
}

proof fn lemma_genera_species_sum(chunk: Seq<Seq<char>>, k: int)
    requires
        0 <= k <= bidx(chunk, Layer::Genus).len(),
    ensures
        genera_species(parse_category_chunk(chunk).genera.take(k)) == sum_counts_upto(
            chunk,
            Layer::Genus,
            Layer::Species,
            k,
        ),
    decreases k,
{
    let gens = parse_category_chunk(chunk).genera;
    if k == 0 {
        assert(gens.take(0) =~= Seq::<GenView>::empty());
    } else {
        lemma_genera_species_sum(chunk, k - 1);
        assert(gens.take(k).drop_last() =~= gens.take(k - 1));
        let gchunk = chunks_spec(chunk, Layer::Genus)[k - 1];
        assert(gens.take(k).last() == parse_genus_chunk(gchunk));
        assert(parse_genus_chunk(gchunk).species.len() == count_boundaries(
            gchunk,
            Layer::Species,
        ));
    }
}

proof fn lemma_species_in_cat_chunk(lines: Seq<Seq<char>>, k: int)
    requires
        well_formed(lines),
        0 <= k < bidx(lines, Layer::Category).len(),
    ensures
        genera_species(parse_category_chunk(chunks_spec(lines, Layer::Category)[k]).genera)
            == count_boundaries(chunks_spec(lines, Layer::Category)[k], Layer::Species),
{
    lemma_bidx(lines, Layer::Category);
    let bk = bidx(lines, Layer::Category)[k];
    let ek = chunk_end(lines, Layer::Category, k);
    let chunk = chunks_spec(lines, Layer::Category)[k];
    assert(chunk == lines.subrange(bk, ek));
    assert(bk < ek <= lines.len());
    lemma_bidx(chunk, Layer::Genus);
    let m2 = bidx(chunk, Layer::Genus).len();
    let cut = if m2 == 0 {
        chunk.len() as int
    } else {
        bidx(chunk, Layer::Genus)[0]
    };
    // no species boundary stands before the first genus boundary of the chunk
    assert forall|p: int| 0 <= p < cut implies !is_boundary(
        Layer::Species,
        #[trigger] chunk[p],
    ) by {
        if is_boundary(Layer::Species, chunk[p]) {
            let i = bk + p;
            assert(chunk[p] == lines[i]);
            assert(is_boundary(Layer::Species, lines[i]));
            let j = choose|j: int|
                0 <= j < i && is_boundary(Layer::Genus, lines[j]) && (forall|k2: int|
                    j < k2 <= i ==> !is_boundary(Layer::Category, lines[k2]));
            assert(is_boundary(Layer::Category, lines[bk]));
            assert(bk <= j) by {
                if j < bk {
                    assert(j < bk <= i);
                    assert(!is_boundary(Layer::Category, lines[bk]));
                }
            }
            let q = j - bk;
            assert(chunk[q] == lines[j]);
            assert(is_boundary(Layer::Genus, chunk[q]));
            assert(bidx(chunk, Layer::Genus).contains(q));
            let w = choose|w: int|
                0 <= w < bidx(chunk, Layer::Genus).len() && bidx(chunk, Layer::Genus)[w] == q;
            assert(m2 > 0);
            assert(bidx(chunk, Layer::Genus)[0] <= q) by {
                if w > 0 {
                    assert(bidx(chunk, Layer::Genus)[0] < bidx(chunk, Layer::Genus)[w]);
                }
            }
            assert(q < p);
            assert(false);
        }
    }
    let pre = chunk.subrange(0, cut);
    assert(forall|p: int| 0 <= p < pre.len() ==> !is_boundary(Layer::Species, #[trigger] pre[p]));
    lemma_count_zero(pre, Layer::Species);
    lemma_count_split(chunk, 0, cut, chunk.len() as int, Layer::Species);
    assert(chunk.subrange(0, chunk.len() as int) =~= chunk);
    lemma_genera_species_sum(chunk, m2 as int);
    assert(parse_category_chunk(chunk).genera.take(m2 as int) =~= parse_category_chunk(
        chunk,
    ).genera);
    lemma_sum_upto_prefix(chunk, Layer::Genus, Layer::Species, m2 as int);
    if m2 == 0 {
        assert(count_boundaries(chunk, Layer::Species) == 0);
    } else {
        assert(chunk_end(chunk, Layer::Genus, m2 - 1) == chunk.len());
        assert(chunk.subrange(cut, chunk.len() as int) == chunk.subrange(
            bidx(chunk, Layer::Genus)[0],
            chunk_end(chunk, Layer::Genus, m2 - 1),
        ));
    }
}

proof fn lemma_total_species_sum(lines: Seq<Seq<char>>, k: int)
    requires
        well_formed(lines),
        0 <= k <= bidx(lines, Layer::Category).len(),
    ensures
        total_species(parse_taxonomy(lines).take(k)) == sum_counts_upto(
            lines,
            Layer::Category,
            Layer::Species,
            k,
        ),
    decreases k,
{
    let cats = parse_taxonomy(lines);
    if k == 0 {
        assert(cats.take(0) =~= Seq::<CatView>::empty());
    } else {
        lemma_total_species_sum(lines, k - 1);
        assert(cats.take(k).drop_last() =~= cats.take(k - 1));
        let chunk = chunks_spec(lines, Layer::Category)[k - 1];
        assert(cats.take(k).last() == parse_category_chunk(chunk));
        lemma_species_in_cat_chunk(lines, k - 1);
    }
}

/// For a well-formed source, the parse is exactly as large as the source
/// says: one category per category boundary line, one genus per genus
/// boundary line, one species per species boundary line.
pub proof fn lemma_taxonomy_counts(lines: Seq<Seq<char>>)
    requires
        well_formed(lines),
    ensures
        parse_taxonomy(lines).len() == count_boundaries(lines, Layer::Category),
        total_genera(parse_taxonomy(lines)) == count_boundaries(lines, Layer::Genus),
        total_species(parse_taxonomy(lines)) == count_boundaries(lines, Layer::Species),
{
    lemma_bidx(lines, Layer::Category);
    let m = bidx(lines, Layer::Category).len() as int;
    let cats = parse_taxonomy(lines);
    assert(cats.take(m) =~= cats);
    lemma_total_genera_sum(lines, m);
    lemma_total_species_sum(lines, m);
    lemma_sum_upto_prefix(lines, Layer::Category, Layer::Genus, m);
    lemma_sum_upto_prefix(lines, Layer::Category, Layer::Species, m);
    if m == 0 {
        // with no category boundary at all, well-formedness leaves no
        // genus and hence no species boundary anywhere
        assert forall|i: int| 0 <= i < lines.len() implies !is_boundary(
            Layer::Genus,
            #[trigger] lines[i],
        ) by {
            if is_boundary(Layer::Genus, lines[i]) {
                let j = choose|j: int| 0 <= j < i && is_boundary(Layer::Category, lines[j]);
                assert(bidx(lines, Layer::Category).contains(j));
                assert(false);
            }
        }
        assert forall|i: int| 0 <= i < lines.len() implies !is_boundary(
            Layer::Species,
            #[trigger] lines[i],
        ) by {
            if is_boundary(Layer::Species, lines[i]) {
                let j = choose|j: int|
                    0 <= j < i && is_boundary(Layer::Genus, lines[j]) && (forall|k2: int|
                        j < k2 <= i ==> !is_boundary(Layer::Category, lines[k2]));
                assert(!is_boundary(Layer::Genus, lines[j]));
                assert(false);
            }
        }
        lemma_count_zero(lines, Layer::Genus);
        lemma_count_zero(lines, Layer::Species);
    } else {
        let b0 = bidx(lines, Layer::Category)[0];
        // no category boundary stands below the first one
        assert forall|i: int| 0 <= i < b0 implies !is_boundary(
            Layer::Category,
            #[trigger] lines[i],
        ) by {
            if is_boundary(Layer::Category, lines[i]) {
                assert(bidx(lines, Layer::Category).contains(i));
                let w = choose|w: int|
                    0 <= w < bidx(lines, Layer::Category).len() && bidx(
                        lines,
                        Layer::Category,
                    )[w] == i;
                if w > 0 {
                    assert(bidx(lines, Layer::Category)[0] < bidx(lines, Layer::Category)[w]);
                }
                assert(false);
            }
        }
        // hence no genus boundary either, and so no species boundary
        assert forall|i: int| 0 <= i < b0 implies !is_boundary(
            Layer::Genus,
            #[trigger] lines[i],
        ) by {
            if is_boundary(Layer::Genus, lines[i]) {
                let j = choose|j: int| 0 <= j < i && is_boundary(Layer::Category, lines[j]);
                assert(false);
            }
        }
        assert forall|i: int| 0 <= i < b0 implies !is_boundary(
            Layer::Species,
            #[trigger] lines[i],
        ) by {
            if is_boundary(Layer::Species, lines[i]) {
                let j = choose|j: int|
                    0 <= j < i && is_boundary(Layer::Genus, lines[j]) && (forall|k2: int|
                        j < k2 <= i ==> !is_boundary(Layer::Category, lines[k2]));
                assert(false);
            }
        }
        let pre = lines.subrange(0, b0);
        assert(forall|i: int|
            0 <= i < pre.len() ==> !is_boundary(Layer::Genus, #[trigger] pre[i]));
        assert(forall|i: int|
            0 <= i < pre.len() ==> !is_boundary(Layer::Species, #[trigger] pre[i]));
        lemma_count_zero(pre, Layer::Genus);
        lemma_count_zero(pre, Layer::Species);
        assert(chunk_end(lines, Layer::Category, m - 1) == lines.len());
        lemma_count_split(lines, 0, b0, lines.len() as int, Layer::Genus);
        lemma_count_split(lines, 0, b0, lines.len() as int, Layer::Species);
        assert(lines.subrange(0, lines.len() as int) =~= lines);
    }
}

/// The memoized taxonomy: rebuilt only when the source's modification time
/// differs from the last one observed, so repeated requests with an
/// unchanged source reuse the tree.  The parse counter says how often the
/// source was actually parsed.
pub struct TaxonomyCache {
    pub mtime: Option<u64>,
    pub categories: Vec<CatInfo>,
    pub shroompedia: Vec<ShroomInfo>,
    pub parse_count: u64,
}

impl TaxonomyCache {
    /// An empty cache that has parsed nothing.
    pub fn new() -> (r: TaxonomyCache)
        ensures
            r.mtime is None,
            r.categories@.len() == 0,
            r.shroompedia@.len() == 0,
            r.parse_count == 0,
    {
        TaxonomyCache {
            mtime: None,
            categories: Vec::new(),
            shroompedia: Vec::new(),
            parse_count: 0,
        }
    }

    /// Whether the source must be parsed again: exactly when the observed
    /// modification time differs from the cached one.  When it does not,
    /// the cached taxonomy is reused untouched.
    pub fn needs_reload(&self, curr_mtime: u64) -> (r: bool)
        ensures
            r == (self.mtime != Some(curr_mtime)),
    {
        match self.mtime {
            Some(m) => m != curr_mtime,
            None => true,
        }
    }

    /// Replaces the cached taxonomy with a parse of the source text read
    /// at the given modification time; an unreadable source installs the
    /// empty taxonomy.  This is the only operation that parses, and each
    /// call counts.
    pub fn install(&mut self, curr_mtime: u64, source: Option<&String>)
        requires
            old(self).parse_count < u64::MAX,
        ensures
            final(self).mtime == Some(curr_mtime),
            final(self).parse_count == old(self).parse_count + 1,
            match source {
                Some(s) => final(self).categories.deep_view() == parse_taxonomy(
                    text::lines_spec(s@),
                ) && final(self).shroompedia.deep_view() == shroompedia_spec(
                    parse_taxonomy(text::lines_spec(s@)),
                ),
                None => final(self).categories@.len() == 0
                    && final(self).shroompedia@.len() == 0,
            },
    {
        let (categories, pedia) = yaml(source);
        self.mtime = Some(curr_mtime);
        self.categories = categories;
        self.shroompedia = pedia;
        self.parse_count = self.parse_count + 1;
    }
}

} // verus!
