//! The template renderer: cached page skeletons and fragments are filled by
//! literal placeholder substitution from the taxonomy.

use vstd::prelude::*;

use vstd::utf8::encode_utf8;

use crate::consts;
use crate::response::Response;
use crate::taxonomy::CatInfo;
use crate::taxonomy::CatView;
use crate::taxonomy::GenInfo;
use crate::taxonomy::GenView;
use crate::taxonomy::ShroomInfo;
use crate::taxonomy::ShroomView;
use crate::taxonomy::SpeInfo;
use crate::taxonomy::SpeView;
use crate::text;

verus! {

/// The reserved literal that marks a common name as absent.
pub const SENTINEL: &'static str = "''";

/// The reusable HTML snippets for one category, genus, species, or menu
/// entry.
pub struct Fragments {
    pub category: String,
    pub genus: String,
    pub species: String,
    pub menu: String,
}

/// The page skeletons and fragments, loaded once and shared across all
/// requests.
pub struct Templates {
    pub nf404: String,
    pub pd403: String,
    pub menu: String,
    pub myc_page: String,
    pub fragments: Fragments,
}

/// A template with the shared page head spliced in.
pub open spec fn with_meta(s: Seq<char>, meta: Seq<char>) -> Seq<char> {
    text::replace_spec(s, "{META}"@, meta)
}

/// Builds the shared template set from the raw file contents, splicing the
/// shared page head into each of them.
pub fn cache(
    meta: &str,
    nf404: &str,
    pd403: &str,
    menu_page: &str,
    myc_page: &str,
    frag_category: &str,
    frag_genus: &str,
    frag_species: &str,
    frag_menu: &str,
) -> (r: Templates)
    ensures
        r.nf404@ == with_meta(nf404@, meta@),
        r.pd403@ == with_meta(pd403@, meta@),
        r.menu@ == with_meta(menu_page@, meta@),
        r.myc_page@ == with_meta(myc_page@, meta@),
        r.fragments.category@ == with_meta(frag_category@, meta@),
        r.fragments.genus@ == with_meta(frag_genus@, meta@),
        r.fragments.species@ == with_meta(frag_species@, meta@),
        r.fragments.menu@ == with_meta(frag_menu@, meta@),
{
    proof {
        reveal_strlit("{META}");
    }
    Templates {
        nf404: text::replace(nf404, "{META}", meta),
        pd403: text::replace(pd403, "{META}", meta),
        menu: text::replace(menu_page, "{META}", meta),
        myc_page: text::replace(myc_page, "{META}", meta),
        fragments: Fragments {
            category: text::replace(frag_category, "{META}", meta),
            genus: text::replace(frag_genus, "{META}", meta),
            species: text::replace(frag_species, "{META}", meta),
            menu: text::replace(frag_menu, "{META}", meta),
        },
    }
}

/// One menu entry: the fragment with the category's label filling the
/// link placeholder and its title the text.
pub open spec fn menu_item(c: CatView, frag: Seq<char>) -> Seq<char> {
    text::replace_spec(text::replace_spec(frag, "{HREF}"@, c.label), "{TITLE}"@, c.title)
}

/// The menu entries of all categories, concatenated in order.
pub open spec fn menu_spec(cats: Seq<CatView>, frag: Seq<char>) -> Seq<char>
    decreases cats.len(),
{
    if cats.len() == 0 {
        Seq::<char>::empty()
    } else {
        menu_spec(cats.drop_last(), frag) + menu_item(cats.last(), frag)
    }
}

/// Folds every category into one menu entry each.
pub fn menu(categories: &Vec<CatInfo>, html_frag: &str) -> (r: String)
    ensures
        r@ == menu_spec(categories.deep_view(), html_frag@),
{
    proof {
        reveal_strlit("{HREF}");
        reveal_strlit("{TITLE}");
    }
    let ghost deep = categories.deep_view();
    let mut out = String::new();
    let n = categories.len();
    let mut i: usize = 0;
    proof {
        assert(out@ =~= menu_spec(deep.take(0), html_frag@));
    }
    while i < n
        invariant
            i <= n,
            n == categories.len(),
            deep == categories.deep_view(),
            "{HREF}"@.len() > 0,
            "{TITLE}"@.len() > 0,
            out@ == menu_spec(deep.take(i as int), html_frag@),
        decreases n - i,
    {
        let cat = &categories[i];
        let step = text::replace(
            text::replace(html_frag, "{HREF}", cat.label.as_str()).as_str(),
            "{TITLE}",
            cat.title.as_str(),
        );
        out.append(step.as_str());
        proof {
            assert(deep.take(i + 1).drop_last() =~= deep.take(i as int));
            assert(deep.take(i + 1).last() == deep[i as int]);
        }
        i += 1;
    }
    proof {
        assert(deep.take(n as int) =~= deep);
    }
    out
}

/// A species' display name: the latin title, with " - {common}" appended
/// unless the common name is the sentinel meaning "absent".
pub open spec fn display_name_spec(title: Seq<char>, common: Seq<char>) -> Seq<char> {
    if common == "''"@ {
        title
    } else {
        title + " - "@ + common
    }
}

/// Renders a species' display name, honouring the absent-name sentinel.
pub fn display_name(title: &str, common: &str) -> (r: String)
    ensures
        r@ == display_name_spec(title@, common@),
{
    if text::str_eq(common, SENTINEL) {
        title.to_owned()
    } else {
        let mut r = title.to_owned();
        r.append(" - ");
        r.append(common);
        r
    }
}

pub open spec fn is_image_name(n: Seq<char>) -> bool {
    text::has_suffix(n, ".jpg"@)
}

/// How many entries of a directory listing name image files.
pub open spec fn count_images(names: Seq<Seq<char>>) -> nat
    decreases names.len(),
{
    if names.len() == 0 {
        0
    } else {
        count_images(names.drop_last()) + (if is_image_name(names.last()) {
            1nat
        } else {
            0nat
        })
    }
}

/// The image count substituted when a species directory cannot be listed:
/// a failed listing simply shows no images.
pub const FALLBACK_IMAGE_COUNT: usize = 0;

/// The image count for one species: the number of image files its
/// directory listing holds, or the fixed fallback where the listing failed.
pub fn image_count(listing: Option<&Vec<String>>) -> (r: usize)
    ensures
        match listing {
            Some(names) => r == count_images(names.deep_view()),
            None => r == FALLBACK_IMAGE_COUNT,
        },
{
    match listing {
        Some(names) => {
            let ghost deep = names.deep_view();
            let n = names.len();
            let mut count: usize = 0;
            let mut i: usize = 0;
            proof {
                assert(deep.take(0) =~= Seq::<Seq<char>>::empty());
            }
            while i < n
                invariant
                    i <= n,
                    n == names.len(),
                    deep == names.deep_view(),
                    count <= i,
                    count == count_images(deep.take(i as int)),
                decreases n - i,
            {
                proof {
                    assert(deep.take(i + 1).drop_last() =~= deep.take(i as int));
                    assert(deep.take(i + 1).last() == deep[i as int]);
                }
                if text::ends_with(names[i].as_str(), ".jpg") {
                    count += 1;
                }
                i += 1;
            }
            proof {
                assert(deep.take(n as int) =~= deep);
            }
            count
        },
        None => FALLBACK_IMAGE_COUNT,
    }
}

/// The name/url pairs one species contributes to the search index: its
/// latin name, and its common name too unless that is the sentinel.
pub open spec fn name_pairs(s: ShroomView) -> Seq<(Seq<char>, Seq<char>)> {
    if s.info.common_name == "''"@ {
        seq![(s.latin_name, s.url)]
    } else {
        seq![(s.latin_name, s.url), (s.info.common_name, s.url)]
    }
}

pub open spec fn flatten_names_spec(sv: Seq<ShroomView>) -> Seq<(Seq<char>, Seq<char>)>
    decreases sv.len(),
{
    if sv.len() == 0 {
        Seq::<(Seq<char>, Seq<char>)>::empty()
    } else {
        flatten_names_spec(sv.drop_last()) + name_pairs(sv.last())
    }
}

/// Flattens every species into its searchable name/url pairs.
pub fn flatten_names(shroompedia: &Vec<ShroomInfo>) -> (r: Vec<(String, String)>)
    ensures
        r.deep_view() == flatten_names_spec(shroompedia.deep_view()),
{
    let ghost deep = shroompedia.deep_view();
    let mut out: Vec<(String, String)> = Vec::new();
    let n = shroompedia.len();
    let mut i: usize = 0;
    proof {
        assert(out.deep_view() =~= flatten_names_spec(deep.take(0)));
    }
    while i < n
        invariant
            i <= n,
            n == shroompedia.len(),
            deep == shroompedia.deep_view(),
            out.deep_view() == flatten_names_spec(deep.take(i as int)),
        decreases n - i,
    {
        let ghost before = out.deep_view();
        let shroom = &shroompedia[i];
        out.push((shroom.latin_name.clone(), shroom.url.clone()));
        if !text::str_eq(shroom.info.common_name.as_str(), SENTINEL) {
            out.push((shroom.info.common_name.clone(), shroom.url.clone()));
        }
        proof {
            assert(deep.take(i + 1).drop_last() =~= deep.take(i as int));
            assert(deep.take(i + 1).last() == deep[i as int]);
            assert(out.deep_view() =~= before + name_pairs(deep[i as int]));
        }
        i += 1;
    }
    proof {
        assert(deep.take(n as int) =~= deep);
    }
    out
}

/// The datalist options one species contributes to the search widget.
pub open spec fn shroom_options(s: ShroomView) -> Seq<char> {
    "<option>"@ + s.latin_name + "</option>\n"@ + (if s.info.common_name == "''"@ {
        Seq::<char>::empty()
    } else {
        "<option>"@ + s.info.common_name + "</option>\n"@
    })
}

pub open spec fn options_text(sv: Seq<ShroomView>) -> Seq<char>
    decreases sv.len(),
{
    if sv.len() == 0 {
        Seq::<char>::empty()
    } else {
        options_text(sv.drop_last()) + shroom_options(sv.last())
    }
}

/// The search widget: a datalist of every name, inside the fixed form
/// markup.
pub open spec fn search_opts_spec(sv: Seq<ShroomView>) -> Seq<char> {
    "<div>\n      <datalist id=\"suggestions\">\n          "@ + options_text(sv)
        + "\n      </datalist>\n      <form method=\"dialog\" id=\"form\" onSubmit=\"doSearch()\">\n        <input id=\"query\" placeholder=\"Search...\" aria-label=\"Search\" list=\"suggestions\" autocomplete=\"off\"> \n        <input type=\"submit\" value=\"Search Shrooms...\">\n      </form>\n    </div>"@
}

/// Renders the search widget.
pub fn search_opts(shroompedia: &Vec<ShroomInfo>) -> (r: String)
    ensures
        r@ == search_opts_spec(shroompedia.deep_view()),
{
    let ghost deep = shroompedia.deep_view();
    let mut out = String::new();
    out.append("<div>\n      <datalist id=\"suggestions\">\n          ");
    let n = shroompedia.len();
    let mut i: usize = 0;
    proof {
        assert(out@ =~= "<div>\n      <datalist id=\"suggestions\">\n          "@ + options_text(
            deep.take(0),
        ));
    }
    while i < n
        invariant
            i <= n,
            n == shroompedia.len(),
            deep == shroompedia.deep_view(),
            out@ == "<div>\n      <datalist id=\"suggestions\">\n          "@ + options_text(
                deep.take(i as int),
            ),
        decreases n - i,
    {
        let shroom = &shroompedia[i];
        out.append("<option>");
        out.append(shroom.latin_name.as_str());
        out.append("</option>\n");
        if !text::str_eq(shroom.info.common_name.as_str(), SENTINEL) {
            out.append("<option>");
            out.append(shroom.info.common_name.as_str());
            out.append("</option>\n");
        }
        proof {
            assert(deep.take(i + 1).drop_last() =~= deep.take(i as int));
            assert(deep.take(i + 1).last() == deep[i as int]);
            assert(out@ =~= "<div>\n      <datalist id=\"suggestions\">\n          "@
                + options_text(deep.take(i + 1)));
        }
        i += 1;
    }
    proof {
        assert(deep.take(n as int) =~= deep);
    }
    out.append(
        "\n      </datalist>\n      <form method=\"dialog\" id=\"form\" onSubmit=\"doSearch()\">\n        <input id=\"query\" placeholder=\"Search...\" aria-label=\"Search\" list=\"suggestions\" autocomplete=\"off\"> \n        <input type=\"submit\" value=\"Search Shrooms...\">\n      </form>\n    </div>",
    );
    out
}

/// The association entries one species contributes to the search object.
pub open spec fn shroom_assoc(s: ShroomView) -> Seq<char> {
    "\""@ + s.latin_name + "\":\""@ + s.url + "\","@ + (if s.info.common_name == "''"@ {
        Seq::<char>::empty()
    } else {
        "\""@ + s.info.common_name + "\":\""@ + s.url + "\","@
    })
}

/// The name-to-url association blob for the client-side search.
pub open spec fn search_obj_spec(sv: Seq<ShroomView>) -> Seq<char>
    decreases sv.len(),
{
    if sv.len() == 0 {
        Seq::<char>::empty()
    } else {
        search_obj_spec(sv.drop_last()) + shroom_assoc(sv.last())
    }
}

/// Renders the name-to-url association blob.
pub fn search_obj(shroompedia: &Vec<ShroomInfo>) -> (r: String)
    ensures
        r@ == search_obj_spec(shroompedia.deep_view()),
{
    let ghost deep = shroompedia.deep_view();
    let mut out = String::new();
    let n = shroompedia.len();
    let mut i: usize = 0;
    proof {
        assert(out@ =~= search_obj_spec(deep.take(0)));
    }
    while i < n
        invariant
            i <= n,
            n == shroompedia.len(),
            deep == shroompedia.deep_view(),
            out@ == search_obj_spec(deep.take(i as int)),
        decreases n - i,
    {
        let shroom = &shroompedia[i];
        out.append("\"");
        out.append(shroom.latin_name.as_str());
        out.append("\":\"");
        out.append(shroom.url.as_str());
        out.append("\",");
        if !text::str_eq(shroom.info.common_name.as_str(), SENTINEL) {
            out.append("\"");
            out.append(shroom.info.common_name.as_str());
            out.append("\":\"");
            out.append(shroom.url.as_str());
            out.append("\",");
        }
        proof {
            assert(deep.take(i + 1).drop_last() =~= deep.take(i as int));
            assert(deep.take(i + 1).last() == deep[i as int]);
            assert(out@ =~= search_obj_spec(deep.take(i + 1)));
        }
        i += 1;
    }
    proof {
        assert(deep.take(n as int) =~= deep);
    }
    out
}

/// The deterministic image path `{cat}/{gen}/{spe}/{gen}{spe}{k}.jpg`.
pub open spec fn img_path(cat: Seq<char>, gen: Seq<char>, spe: Seq<char>, k: nat) -> Seq<char> {
    cat + "/"@ + gen + "/"@ + spe + "/"@ + gen + spe + text::dec_spec(k) + ".jpg"@
}

/// The species fragment repeated once per image, with the image path
/// substituted.
pub open spec fn species_images(
    cat: Seq<char>,
    gen: Seq<char>,
    spe: Seq<char>,
    frag: Seq<char>,
    n: nat,
) -> Seq<char>
    decreases n,
{
    if n == 0 {
        Seq::<char>::empty()
    } else {
        species_images(cat, gen, spe, frag, (n - 1) as nat) + text::replace_spec(
            frag,
            "{PATH}"@,
            img_path(cat, gen, spe, (n - 1) as nat),
        )
    }
}

/// Renders the image gallery of one species: one fragment per image.
pub fn gen_species(
    category: &str,
    genus: &str,
    species: &str,
    frag_species: &str,
    count: usize,
) -> (r: String)
    ensures
        r@ == species_images(category@, genus@, species@, frag_species@, count as nat),
{
    proof {
        reveal_strlit("{PATH}");
    }
    let mut out = String::new();
    let mut k: usize = 0;
    proof {
        assert(out@ =~= species_images(category@, genus@, species@, frag_species@, 0));
    }
    while k < count
        invariant
            k <= count,
            "{PATH}"@.len() > 0,
            out@ == species_images(category@, genus@, species@, frag_species@, k as nat),
        decreases count - k,
    {
        let mut path = String::new();
        path.append(category);
        path.append("/");
        path.append(genus);
        path.append("/");
        path.append(species);
        path.append("/");
        path.append(genus);
        path.append(species);
        let num = text::u64_to_string(k as u64);
        path.append(num.as_str());
        path.append(".jpg");
        let step = text::replace(frag_species, "{PATH}", path.as_str());
        out.append(step.as_str());
        proof {
            assert(path@ =~= img_path(category@, genus@, species@, k as nat));
            assert(out@ =~= species_images(category@, genus@, species@, frag_species@, (
            k + 1) as nat));
        }
        k += 1;
    }
    out
}

/// One species' section of a genus listing: the genus fragment with the
/// display name, the blurb, and the image gallery substituted.
pub open spec fn species_section_spec(
    cat: Seq<char>,
    gen: Seq<char>,
    spe: SpeView,
    frags: Fragments,
    imgs: nat,
) -> Seq<char> {
    text::replace_spec(
        text::replace_spec(
            text::replace_spec(
                frags.genus@,
                "{NAME}"@,
                display_name_spec(spe.title, spe.common_name),
            ),
            "{BLURB}"@,
            spe.blurb,
        ),
        "{HTML}"@,
        species_images(cat, gen, spe.title, frags.species@, imgs),
    )
}

fn species_section(
    category: &str,
    genus: &str,
    spe: &SpeInfo,
    frags: &Fragments,
    imgs: usize,
) -> (r: String)
    ensures
        r@ == species_section_spec(category@, genus@, spe@, *frags, imgs as nat),
{
    proof {
        reveal_strlit("{NAME}");
        reveal_strlit("{BLURB}");
        reveal_strlit("{HTML}");
    }
    let name = display_name(spe.title.as_str(), spe.common_name.as_str());
    let gallery = gen_species(category, genus, spe.title.as_str(), frags.species.as_str(), imgs);
    text::replace(
        text::replace(
            text::replace(frags.genus.as_str(), "{NAME}", name.as_str()).as_str(),
            "{BLURB}",
            spe.blurb.as_str(),
        ).as_str(),
        "{HTML}",
        gallery.as_str(),
    )
}

/// A genus' species sections concatenated, each with its own image count.
pub open spec fn genus_sections(
    cat: Seq<char>,
    gen_title: Seq<char>,
    species: Seq<SpeView>,
    frags: Fragments,
    counts: Seq<usize>,
) -> Seq<char>
    decreases species.len(),
{
    if species.len() == 0 {
        Seq::<char>::empty()
    } else {
        genus_sections(cat, gen_title, species.drop_last(), frags, counts.drop_last())
            + species_section_spec(cat, gen_title, species.last(), frags, counts.last() as nat)
    }
}

/// Folds a genus' species into their sections.
pub fn gen_genus(category: &str, gen: &GenInfo, frags: &Fragments, counts: &Vec<usize>) -> (r:
    String)
    requires
        counts.len() == gen.species.len(),
    ensures
        r@ == genus_sections(category@, gen.title@, gen.species.deep_view(), *frags, counts@),
{
    let ghost deep = gen.species.deep_view();
    let mut out = String::new();
    let n = gen.species.len();
    let mut i: usize = 0;
    proof {
        assert(deep.take(0) =~= Seq::<SpeView>::empty());
        assert(counts@.take(0) =~= Seq::<usize>::empty());
        assert(out@ =~= genus_sections(category@, gen.title@, deep.take(0), *frags, counts@.take(0)));
    }
    while i < n
        invariant
            i <= n,
            n == gen.species.len(),
            counts.len() == n,
            deep == gen.species.deep_view(),
            out@ == genus_sections(
                category@,
                gen.title@,
                deep.take(i as int),
                *frags,
                counts@.take(i as int),
            ),
        decreases n - i,
    {
        let section = species_section(category, gen.title.as_str(), &gen.species[i], frags, counts[i]);
        out.append(section.as_str());
        proof {
            assert(deep.take(i + 1).drop_last() =~= deep.take(i as int));
            assert(deep.take(i + 1).last() == deep[i as int]);
            assert(counts@.take(i + 1).drop_last() =~= counts@.take(i as int));
            assert(counts@.take(i + 1).last() == counts@[i as int]);
        }
        i += 1;
    }
    proof {
        assert(deep.take(n as int) =~= deep);
        assert(counts@.take(n as int) =~= counts@);
    }
    out
}

/// A category's genera folded into the category fragment, genus by genus.
pub open spec fn genera_html(
    label: Seq<char>,
    genera: Seq<GenView>,
    frags: Fragments,
    counts: Seq<Seq<usize>>,
) -> Seq<char>
    decreases genera.len(),
{
    if genera.len() == 0 {
        Seq::<char>::empty()
    } else {
        genera_html(label, genera.drop_last(), frags, counts.drop_last()) + text::replace_spec(
            text::replace_spec(frags.category@, "{TITLE}"@, genera.last().title),
            "{HTML}"@,
            genus_sections(label, genera.last().title, genera.last().species, frags, counts.last()),
        )
    }
}

/// The full nested HTML of one category.
pub open spec fn cat_html_spec(cat: CatView, frags: Fragments, counts: Seq<Seq<usize>>) -> Seq<
    char,
> {
    genera_html(cat.label, cat.genera, frags, counts)
}

impl CatInfo {
    /// Renders this category: every genus, every species, every image,
    /// using the per-species image counts handed in.
    pub fn htmlify(&self, frags: &Fragments, counts: &Vec<Vec<usize>>) -> (r: String)
        requires
            counts.deep_view().len() == self@.genera.len(),
            forall|g: int|
                0 <= g < counts.deep_view().len() ==> #[trigger] counts.deep_view()[g].len()
                    == self@.genera[g].species.len(),
        ensures
            r@ == cat_html_spec(self@, *frags, counts.deep_view()),
    {
        proof {
            reveal_strlit("{TITLE}");
            reveal_strlit("{HTML}");
        }
        let ghost deep = self.genera.deep_view();
        let ghost cdeep = counts.deep_view();
        let mut out = String::new();
        let n = self.genera.len();
        let mut g: usize = 0;
        proof {
            assert(out@ =~= genera_html(self@.label, deep.take(0), *frags, cdeep.take(0)));
        }
        while g < n
            invariant
                g <= n,
                n == self.genera.len(),
                n == counts.len(),
                deep == self.genera.deep_view(),
                cdeep == counts.deep_view(),
                cdeep.len() == n,
                forall|j: int|
                    0 <= j < n ==> #[trigger] cdeep[j].len() == deep[j].species.len(),
                "{TITLE}"@.len() > 0,
                "{HTML}"@.len() > 0,
                out@ == genera_html(self@.label, deep.take(g as int), *frags, cdeep.take(g as int)),
            decreases n - g,
        {
            let genus = &self.genera[g];
            proof {
                assert(counts@[g as int].deep_view() == cdeep[g as int]);
                assert(counts@[g as int]@ =~= cdeep[g as int]);
            }
            let genus_html = gen_genus(self.label.as_str(), genus, frags, &counts[g]);
            let step = text::replace(
                text::replace(frags.category.as_str(), "{TITLE}", genus.title.as_str()).as_str(),
                "{HTML}",
                genus_html.as_str(),
            );
            out.append(step.as_str());
            proof {
                assert(deep.take(g + 1).drop_last() =~= deep.take(g as int));
                assert(deep.take(g + 1).last() == deep[g as int]);
                assert(cdeep.take(g + 1).drop_last() =~= cdeep.take(g as int));
                assert(cdeep.take(g + 1).last() == cdeep[g as int]);
            }
            g += 1;
        }
        proof {
            assert(deep.take(n as int) =~= deep);
            assert(cdeep.take(n as int) =~= cdeep);
        }
        out
    }
}

impl ShroomInfo {
    /// Renders this species' image gallery for its page.
    pub fn htmlify(&self, frag_species: &str, imgs: usize) -> (r: String)
        ensures
            r@ == species_images(self.cat@, self.gen@, self.spe@, frag_species@, imgs as nat),
    {
        gen_species(self.cat.as_str(), self.gen.as_str(), self.spe.as_str(), frag_species, imgs)
    }
}

/// The menu page: the skeleton with the category menu, the search widget,
/// and the search object substituted.
pub open spec fn fill_menu_spec(
    skeleton: Seq<char>,
    cats: Seq<CatView>,
    sv: Seq<ShroomView>,
    frag_menu: Seq<char>,
) -> Seq<char> {
    text::replace_spec(
        text::replace_spec(
            text::replace_spec(skeleton, "{MENU}"@, menu_spec(cats, frag_menu)),
            "{SEARCH}"@,
            search_opts_spec(sv),
        ),
        "{DATA}"@,
        search_obj_spec(sv),
    )
}

/// Fills the menu page skeleton.
pub fn fill_menu(
    skeleton: &str,
    categories: &Vec<CatInfo>,
    shroompedia: &Vec<ShroomInfo>,
    frag_menu: &str,
) -> (r: Vec<u8>)
    ensures
        r@ == encode_utf8(
            fill_menu_spec(
                skeleton@,
                categories.deep_view(),
                shroompedia.deep_view(),
                frag_menu@,
            ),
        ),
{
    proof {
        reveal_strlit("{MENU}");
        reveal_strlit("{SEARCH}");
        reveal_strlit("{DATA}");
    }
    let menu_html = menu(categories, frag_menu);
    let opts = search_opts(shroompedia);
    let obj = search_obj(shroompedia);
    let page = text::replace(
        text::replace(
            text::replace(skeleton, "{MENU}", menu_html.as_str()).as_str(),
            "{SEARCH}",
            opts.as_str(),
        ).as_str(),
        "{DATA}",
        obj.as_str(),
    );
    page.as_str().as_bytes_vec()
}

/// A category page: the skeleton with the category's title and nested
/// HTML substituted.
pub open spec fn fill_cat_spec(
    skeleton: Seq<char>,
    cat: CatView,
    frags: Fragments,
    counts: Seq<Seq<usize>>,
) -> Seq<char> {
    text::replace_spec(
        text::replace_spec(skeleton, "{TITLE}"@, cat.title),
        "{DATA}"@,
        cat_html_spec(cat, frags, counts),
    )
}

/// Fills a category page skeleton.
pub fn fill_cat(skeleton: &str, cat: &CatInfo, frags: &Fragments, counts: &Vec<Vec<usize>>) -> (r:
    Vec<u8>)
    requires
        counts.deep_view().len() == cat@.genera.len(),
        forall|g: int|
            0 <= g < counts.deep_view().len() ==> #[trigger] counts.deep_view()[g].len()
                == cat@.genera[g].species.len(),
    ensures
        r@ == encode_utf8(fill_cat_spec(skeleton@, cat@, *frags, counts.deep_view())),
{
    proof {
        reveal_strlit("{TITLE}");
        reveal_strlit("{DATA}");
    }
    let data = cat.htmlify(frags, counts);
    let page = text::replace(
        text::replace(skeleton, "{TITLE}", cat.title.as_str()).as_str(),
        "{DATA}",
        data.as_str(),
    );
    page.as_str().as_bytes_vec()
}

/// A species page: the skeleton with the species' display name, the
/// blurb, and the image gallery substituted.
pub open spec fn fill_shroompage_spec(
    skeleton: Seq<char>,
    s: ShroomView,
    frag_species: Seq<char>,
    imgs: nat,
) -> Seq<char> {
    text::replace_spec(
        text::replace_spec(
            text::replace_spec(
                skeleton,
                "{TITLE}"@,
                display_name_spec(s.latin_name, s.info.common_name),
            ),
            "{BLURB}"@,
            s.info.blurb,
        ),
        "{DATA}"@,
        species_images(s.cat, s.gen, s.spe, frag_species, imgs),
    )
}

/// Fills a species page skeleton.
pub fn fill_shroompage(skeleton: &str, shroom: &ShroomInfo, frag_species: &str, imgs: usize) -> (r:
    Vec<u8>)
    ensures
        r@ == encode_utf8(fill_shroompage_spec(skeleton@, shroom@, frag_species@, imgs as nat)),
{
    proof {
        reveal_strlit("{TITLE}");
        reveal_strlit("{BLURB}");
        reveal_strlit("{DATA}");
    }
    let title = display_name(shroom.latin_name.as_str(), shroom.info.common_name.as_str());
    let gallery = shroom.htmlify(frag_species, imgs);
    let page = text::replace(
        text::replace(
            text::replace(skeleton, "{TITLE}", title.as_str()).as_str(),
            "{BLURB}",
            shroom.info.blurb.as_str(),
        ).as_str(),
        "{DATA}",
        gallery.as_str(),
    );
    page.as_str().as_bytes_vec()
}

/// The index of the first category carrying the given label.
pub open spec fn find_cat_spec(cats: Seq<CatView>, label: Seq<char>) -> Option<int>
    decreases cats.len(),
{
    if cats.len() == 0 {
        None
    } else if cats[0].label == label {
        Some(0)
    } else {
        match find_cat_spec(cats.drop_first(), label) {
            Some(i) => Some(i + 1),
            None => None,
        }
    }
}

/// Finds a category by its label.
pub fn find_category(categories: &Vec<CatInfo>, label: &str) -> (r: Option<usize>)
    ensures
        match r {
            Some(i) => i < categories.len() && find_cat_spec(categories.deep_view(), label@)
                == Some(i as int),
            None => find_cat_spec(categories.deep_view(), label@) is None,
        },
{
    let ghost deep = categories.deep_view();
    let n = categories.len();
    let mut i: usize = 0;
    proof {
        assert(deep.skip(0) =~= deep);
    }
    while i < n
        invariant
            i <= n,
            n == categories.len(),
            deep == categories.deep_view(),
            find_cat_spec(deep, label@) == match find_cat_spec(deep.skip(i as int), label@) {
                Some(j) => Some(j + i),
                None => None::<int>,
            },
        decreases n - i,
    {
        let ghost tail = deep.skip(i as int);
        proof {
            assert(tail[0] == deep[i as int]);
            assert(tail.drop_first() =~= deep.skip(i + 1));
        }
        if text::str_eq(categories[i].label.as_str(), label) {
            return Some(i);
        }
        i += 1;
    }
    proof {
        assert(deep.skip(n as int) =~= Seq::<CatView>::empty());
    }
    None
}

/// The index of the first species whose url equals the request path.
pub open spec fn find_shroom_spec(sv: Seq<ShroomView>, path: Seq<char>) -> Option<int>
    decreases sv.len(),
{
    if sv.len() == 0 {
        None
    } else if sv[0].url == path {
        Some(0)
    } else {
        match find_shroom_spec(sv.drop_first(), path) {
            Some(i) => Some(i + 1),
            None => None,
        }
    }
}

/// Finds a species by the url of its page.
pub fn find_shroom(shroompedia: &Vec<ShroomInfo>, path: &str) -> (r: Option<usize>)
    ensures
        match r {
            Some(i) => i < shroompedia.len() && find_shroom_spec(shroompedia.deep_view(), path@)
                == Some(i as int),
            None => find_shroom_spec(shroompedia.deep_view(), path@) is None,
        },
{
    let ghost deep = shroompedia.deep_view();
    let n = shroompedia.len();
    let mut i: usize = 0;
    proof {
        assert(deep.skip(0) =~= deep);
    }
    while i < n
        invariant
            i <= n,
            n == shroompedia.len(),
            deep == shroompedia.deep_view(),
            find_shroom_spec(deep, path@) == match find_shroom_spec(deep.skip(i as int), path@) {
                Some(j) => Some(j + i),
                None => None::<int>,
            },
        decreases n - i,
    {
        let ghost tail = deep.skip(i as int);
        proof {
            assert(tail[0] == deep[i as int]);
            assert(tail.drop_first() =~= deep.skip(i + 1));
        }
        if text::str_eq(shroompedia[i].url.as_str(), path) {
            return Some(i);
        }
        i += 1;
    }
    proof {
        assert(deep.skip(n as int) =~= Seq::<ShroomView>::empty());
    }
    None
}

/// Answers an encyclopedia request with every page kind: the menu for the
/// root path, a species page for a species url, a category page for a
/// category label, and a not-found error otherwise, which the caller
/// replaces with the error page.
pub fn get(
    categories: &Vec<CatInfo>,
    shroompedia: &Vec<ShroomInfo>,
    request: &str,
    templates: &Templates,
    counts: &Vec<Vec<usize>>,
    shroom_imgs: usize,
) -> (r: Result<Response, crate::response::LookupErr>)
    requires
        request@ != "/"@ && find_shroom_spec(shroompedia.deep_view(), request@) is None
            ==> match find_cat_spec(categories.deep_view(), stripped(request@)) {
            Some(i) => counts.deep_view().len() == categories.deep_view()[i].genera.len()
                && forall|g: int|
                    0 <= g < counts.deep_view().len() ==> #[trigger] counts.deep_view()[g].len()
                        == categories.deep_view()[i].genera[g].species.len(),
            None => true,
        },
    ensures
        request@ == "/"@ ==> match r {
            Ok(v) => v.status@ == consts::HTTP_200@ && v.mime_type@ == "text/html"@
                && v.content@ == encode_utf8(
                fill_menu_spec(
                    templates.menu@,
                    categories.deep_view(),
                    shroompedia.deep_view(),
                    templates.fragments.menu@,
                ),
            ),
            Err(_) => false,
        },
        request@ != "/"@ ==> match find_shroom_spec(shroompedia.deep_view(), request@) {
            Some(i) => match r {
                Ok(v) => v.status@ == consts::HTTP_200@ && v.mime_type@ == "text/html"@
                    && v.content@ == encode_utf8(
                    fill_shroompage_spec(
                        templates.myc_page@,
                        shroompedia.deep_view()[i],
                        templates.fragments.species@,
                        shroom_imgs as nat,
                    ),
                ),
                Err(_) => false,
            },
            None => match find_cat_spec(categories.deep_view(), stripped(request@)) {
                Some(i) => match r {
                    Ok(v) => v.status@ == consts::HTTP_200@ && v.mime_type@ == "text/html"@
                        && v.content@ == encode_utf8(
                        fill_cat_spec(
                            templates.myc_page@,
                            categories.deep_view()[i],
                            templates.fragments,
                            counts.deep_view(),
                        ),
                    ),
                    Err(_) => false,
                },
                None => r == Err::<Response, crate::response::LookupErr>(
                    crate::response::LookupErr::NotFound,
                ),
            },
        },
{
    if text::str_eq(request, "/") {
        let content = fill_menu(
            templates.menu.as_str(),
            categories,
            shroompedia,
            templates.fragments.menu.as_str(),
        );
        return Ok(Response { status: consts::HTTP_200, mime_type: "text/html", content });
    }
    match find_shroom(shroompedia, request) {
        Some(i) => {
            let content = fill_shroompage(
                templates.myc_page.as_str(),
                &shroompedia[i],
                templates.fragments.species.as_str(),
                shroom_imgs,
            );
            return Ok(Response { status: consts::HTTP_200, mime_type: "text/html", content });
        },
        None => {},
    }
    proof {
        reveal_strlit("/");
        reveal_strlit("");
        assert(""@ =~= Seq::<char>::empty());
    }
    let req = text::replace(request, "/", "");
    match find_category(categories, req.as_str()) {
        Some(i) => {
            let content = fill_cat(
                templates.myc_page.as_str(),
                &categories[i],
                &templates.fragments,
                counts,
            );
            Ok(Response { status: consts::HTTP_200, mime_type: "text/html", content })
        },
        None => Err(crate::response::LookupErr::NotFound),
    }
}

/// A request path with its slashes removed: the label form of a category
/// request.
pub open spec fn stripped(s: Seq<char>) -> Seq<char> {
    text::replace_spec(s, "/"@, Seq::<char>::empty())
}

/// Answers an encyclopedia request: the menu for the root, a category
/// page for a known label, the not-found page otherwise.
pub fn gen_shroom_html(
    requested_category: &str,
    templates: &Templates,
    categories: &Vec<CatInfo>,
    shroompedia: &Vec<ShroomInfo>,
    counts: &Vec<Vec<usize>>,
) -> (r: Response)
    requires
        match find_cat_spec(categories.deep_view(), stripped(requested_category@)) {
            Some(i) => counts.deep_view().len() == categories.deep_view()[i].genera.len()
                && forall|g: int|
                    0 <= g < counts.deep_view().len() ==> #[trigger] counts.deep_view()[g].len()
                        == categories.deep_view()[i].genera[g].species.len(),
            None => true,
        },
    ensures
        stripped(requested_category@).len() == 0 ==> r.status@ == consts::HTTP_200@
            && r.mime_type@ == "text/html"@ && r.content@ == encode_utf8(
            fill_menu_spec(
                templates.menu@,
                categories.deep_view(),
                shroompedia.deep_view(),
                templates.fragments.menu@,
            ),
        ),
        stripped(requested_category@).len() > 0 ==> match find_cat_spec(
            categories.deep_view(),
            stripped(requested_category@),
        ) {
            Some(i) => r.status@ == consts::HTTP_200@ && r.mime_type@ == "text/html"@
                && r.content@ == encode_utf8(
                fill_cat_spec(
                    templates.myc_page@,
                    categories.deep_view()[i],
                    templates.fragments,
                    counts.deep_view(),
                ),
            ),
            None => r.status@ == consts::HTTP_404@ && r.mime_type@ == "text/html"@
                && r.content@ == encode_utf8(templates.nf404@),
        },
{
    proof {
        reveal_strlit("/");
        reveal_strlit("");
        assert(""@ =~= Seq::<char>::empty());
    }
    let req = text::replace(requested_category, "/", "");
    if req.as_str().unicode_len() == 0 {
        let content = fill_menu(
            templates.menu.as_str(),
            categories,
            shroompedia,
            templates.fragments.menu.as_str(),
        );
        Response { status: consts::HTTP_200, mime_type: "text/html", content }
    } else {
        match find_category(categories, req.as_str()) {
            Some(i) => {
                let content = fill_cat(
                    templates.myc_page.as_str(),
                    &categories[i],
                    &templates.fragments,
                    counts,
                );
                Response { status: consts::HTTP_200, mime_type: "text/html", content }
            },
            None => crate::response::nf404(templates),
        }
    }
}

} // verus!
