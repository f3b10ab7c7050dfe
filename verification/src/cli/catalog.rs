//! The recipe catalog: workflow files that are run by name.

use crate::ir::workflow::Workflow;
use crate::names::views;
use crate::text::{
    byte_len, bytes_from, chars_of, concat2, concat3, concat5, has_char, in_order, join, joined,
    lemma_insert_multiset, lemma_push_multiset, lemma_text_less_total, lemma_text_less_trans, less,
    opt_text, pad_right, padded_right, text_eq, text_less, text_range, texts,
};
use vstd::prelude::*;

verus! {

/// Whether a name is one plain path component, so that it cannot leave the catalog.
pub open spec fn plain_name(s: Seq<char>) -> bool {
    &&& s.len() > 0
    &&& s != "."@
    &&& s != ".."@
    &&& !s.contains('/')
    &&& !s.contains('\\')
    &&& !s.contains('\0')
}

/// Whether a recipe name is one plain path component: not empty, not `.` or `..`, and without a
/// separator.
pub fn is_valid_name(name: &str) -> (r: bool)
    ensures
        r == plain_name(name@),
{
    let v = chars_of(name);
    v.len() > 0 && !text_eq(name, ".") && !text_eq(name, "..") && !has_char(&v, '/') && !has_char(
        &v,
        '\\',
    ) && !has_char(&v, '\0')
}

/// Whether `s` ends with `suffix` and has something before it.
pub open spec fn has_extension(s: Seq<char>, suffix: Seq<char>) -> bool {
    s.len() > suffix.len() && s.skip(s.len() - suffix.len()) == suffix
}

/// Whether a file name has a YAML extension.
pub open spec fn yaml_name(s: Seq<char>) -> bool {
    has_extension(s, ".yaml"@) || has_extension(s, ".yml"@)
}

fn extension_is(v: &Vec<char>, suffix: &str) -> (r: bool)
    ensures
        r == has_extension(v@, suffix@),
{
    let w = chars_of(suffix);
    if v.len() <= w.len() {
        return false;
    }
    let tail = crate::text::slice_of(v, v.len() - w.len(), v.len());
    assert(tail@ =~= v@.skip(v@.len() - w@.len()));
    crate::text::chars_eq(&tail, &w)
}

/// Whether a file name has a YAML extension.
pub fn is_yaml(file_name: &str) -> (r: bool)
    ensures
        r == yaml_name(file_name@),
{
    let v = chars_of(file_name);
    extension_is(&v, ".yaml") || extension_is(&v, ".yml")
}

/// The file names a recipe may have, in the order they are tried.
pub open spec fn candidate_names(name: Seq<char>) -> Seq<Seq<char>> {
    if plain_name(name) {
        seq![name + ".yaml"@, name + ".yml"@]
    } else {
        Seq::empty()
    }
}

/// The file names a recipe may have, in the order they are tried; none for an invalid name.
pub fn candidates(name: &str) -> (r: Vec<String>)
    ensures
        texts(r@) == candidate_names(name@),
{
    let mut out: Vec<String> = Vec::new();
    if is_valid_name(name) {
        out.push(concat2(name, ".yaml"));
        out.push(concat2(name, ".yml"));
    }
    assert(texts(out@) =~= candidate_names(name@));
    out
}

/// The recipe files among names.
pub open spec fn yaml_names(names: Seq<Seq<char>>) -> Seq<Seq<char>>
    decreases names.len(),
{
    if names.len() == 0 {
        Seq::empty()
    } else {
        let before = yaml_names(names.drop_last());
        if yaml_name(names.last()) {
            before.push(names.last())
        } else {
            before
        }
    }
}

/// How much of a file name stands before its extension.
pub open spec fn stem_len(s: Seq<char>) -> nat {
    stem_upto(s, s.len())
}

/// The position of the last dot before `n`, other than one at the beginning; the length of the
/// name when there is none.
pub open spec fn stem_upto(s: Seq<char>, n: nat) -> nat
    decreases n,
{
    if n <= 1 || n > s.len() {
        s.len()
    } else if s[n - 1] == '.' {
        (n - 1) as nat
    } else {
        stem_upto(s, (n - 1) as nat)
    }
}

/// The name of a recipe: its file name without the extension.
pub open spec fn file_stem(s: Seq<char>) -> Seq<char> {
    s.take(stem_len(s) as int)
}

/// The name of a recipe: its file name without the extension.
pub fn recipe_name(file_name: &str) -> (r: String)
    ensures
        r@ == file_stem(file_name@),
{
    let v = chars_of(file_name);
    let mut n: usize = v.len();
    while n > 1 && v[n - 1] != '.'
        invariant
            n <= v.len(),
            v@ == file_name@,
            stem_upto(v@, v@.len()) == stem_upto(v@, n as nat),
        decreases n,
    {
        n -= 1;
    }
    let end: usize = if n > 1 {
        n - 1
    } else {
        v.len()
    };
    assert(v@.subrange(0, end as int) =~= file_name@.take(end as int));
    text_range(&v, 0, end)
}

/// The names of recipe files.
pub open spec fn file_stems(files: Seq<Seq<char>>) -> Seq<Seq<char>> {
    Seq::new(files.len(), |i: int| file_stem(files[i]))
}

/// Whether the recipe of file `a` is listed before that of `b`: by its name, and where the names
/// are the same by the file's.
pub open spec fn listed_before(a: Seq<char>, b: Seq<char>) -> bool {
    text_less(file_stem(a), file_stem(b)) || (file_stem(a) == file_stem(b) && text_less(a, b))
}

/// Whether recipe files stand in the order they are listed.
pub open spec fn in_listed_order(s: Seq<Seq<char>>) -> bool {
    forall|i: int, j: int|
        0 <= i < j < s.len() ==> !listed_before(#[trigger] s[j], #[trigger] s[i])
}

proof fn lemma_listed_total(a: Seq<char>, b: Seq<char>)
    ensures
        listed_before(a, b) ==> !listed_before(b, a),
        !listed_before(a, b) && !listed_before(b, a) ==> a == b,
{
    lemma_text_less_total(file_stem(a), file_stem(b));
    lemma_text_less_total(a, b);
}

proof fn lemma_listed_trans(a: Seq<char>, b: Seq<char>, c: Seq<char>)
    requires
        listed_before(a, b),
        listed_before(b, c),
    ensures
        listed_before(a, c),
{
    if text_less(file_stem(a), file_stem(b)) && text_less(file_stem(b), file_stem(c)) {
        lemma_text_less_trans(file_stem(a), file_stem(b), file_stem(c));
    }
    if text_less(a, b) && text_less(b, c) {
        lemma_text_less_trans(a, b, c);
    }
}

fn is_listed_before(a: &str, b: &str) -> (r: bool)
    ensures
        r == listed_before(a@, b@),
{
    let x = recipe_name(a);
    let y = recipe_name(b);
    less(&x, &y) || (text_eq(&x, &y) && less(a, b))
}

proof fn lemma_placed(o: Seq<Seq<char>>, k: int, x: Seq<char>)
    requires
        in_listed_order(o),
        0 <= k <= o.len(),
        forall|j: int| 0 <= j < k ==> !listed_before(x, #[trigger] o[j]),
        k < o.len() ==> listed_before(x, o[k]),
    ensures
        in_listed_order(o.insert(k, x)),
{
    let n = o.insert(k, x);
    assert forall|a: int, b: int| 0 <= a < b < n.len() implies !listed_before(
        #[trigger] n[b],
        #[trigger] n[a],
    ) by {
        let pa = if a < k {
            a
        } else {
            a - 1
        };
        let pb = if b < k {
            b
        } else {
            b - 1
        };
        if a == k {
            // everything from `k` on comes after `x`
            lemma_listed_total(x, o[k]);
            if listed_before(o[pb], x) {
                lemma_listed_trans(o[pb], x, o[k]);
                assert(pb == k || !listed_before(o[pb], o[k]));
            }
        } else if b != k {
            assert(!listed_before(o[pb], o[pa]));
        }
    }
}

fn place_file(out: &mut Vec<String>, x: String)
    requires
        in_listed_order(texts(old(out)@)),
    ensures
        in_listed_order(texts(final(out)@)),
        texts(final(out)@).to_multiset() == texts(old(out)@).to_multiset().insert(x@),
{
    let ghost o = texts(out@);
    let ghost xv = x@;
    let mut k: usize = 0;
    while k < out.len() && !is_listed_before(&x, &out[k])
        invariant
            k <= out.len(),
            o == texts(out@),
            xv == x@,
            forall|j: int| 0 <= j < k ==> !listed_before(xv, #[trigger] o[j]),
        decreases out.len() - k,
    {
        assert(o[k as int] == out@[k as int]@);
        k += 1;
    }
    proof {
        if k < out.len() {
            assert(o[k as int] == out@[k as int]@);
        }
        lemma_placed(o, k as int, xv);
        lemma_insert_multiset(o, k as int, xv);
    }
    out.insert(k, x);
    assert(texts(out@) =~= o.insert(k as int, xv));
}

/// The recipe files of a directory, sorted by the names of the recipes; files of the same name are
/// sorted by their own.
pub fn recipe_files(names: &Vec<String>) -> (r: Vec<String>)
    ensures
        in_order(file_stems(texts(r@))),
        in_listed_order(texts(r@)),
        texts(r@).to_multiset() == yaml_names(texts(names@)).to_multiset(),
{
    let ghost all = texts(names@);
    let mut out: Vec<String> = Vec::new();
    let mut i: usize = 0;
    assert(texts(out@) =~= yaml_names(all.take(0)));
    while i < names.len()
        invariant
            i <= names.len(),
            all == texts(names@),
            in_listed_order(texts(out@)),
            texts(out@).to_multiset() == yaml_names(all.take(i as int)).to_multiset(),
        decreases names.len() - i,
    {
        assert(all.take(i + 1).drop_last() =~= all.take(i as int));
        assert(all[i as int] == names@[i as int]@);
        if is_yaml(&names[i]) {
            place_file(&mut out, names[i].clone());
            proof {
                lemma_push_multiset(yaml_names(all.take(i as int)), all[i as int]);
            }
        }
        i += 1;
    }
    assert(all.take(i as int) =~= all);
    out
}

/// A recipe as it is listed. The metadata is absent when the file is no workflow.
#[derive(Debug)]
pub struct Recipe {
    pub name: String,
    pub path: String,
    pub workflow_name: Option<String>,
    pub description: Option<String>,
}

/// The mathematical form of a [`Recipe`].
#[verifier::ext_equal]
pub struct RecipeView {
    pub name: Seq<char>,
    pub path: Seq<char>,
    pub workflow_name: Option<Seq<char>>,
    pub description: Option<Seq<char>>,
}

impl View for Recipe {
    type V = RecipeView;

    open spec fn view(&self) -> RecipeView {
        RecipeView {
            name: self.name@,
            path: self.path@,
            workflow_name: opt_text(self.workflow_name),
            description: opt_text(self.description),
        }
    }
}

/// A recipe as its file makes it. `parsed` is the workflow the file holds, if it holds one.
pub fn recipe_of(file_name: &str, path: &str, parsed: &Option<Workflow>) -> (r: Recipe)
    ensures
        r@ == (RecipeView {
            name: file_stem(file_name@),
            path: path@,
            workflow_name: match *parsed {
                Some(wf) => Some(wf.name@),
                None => None,
            },
            description: match *parsed {
                Some(wf) => opt_text(wf.description),
                None => None,
            },
        }),
{
    let (workflow_name, description) = match parsed {
        Some(wf) => (Some(wf.name.to_string()), wf.description.clone()),
        None => (None, None),
    };
    Recipe { name: recipe_name(file_name), path: path.to_owned(), workflow_name, description }
}

/// A recipe's line in a listing whose names are `width` wide.
pub open spec fn recipe_line_text(r: RecipeView, width: nat) -> Seq<char> {
    let head = "  "@ + padded_right(r.name, width);
    if r.workflow_name is None {
        head + "  (does not parse as a workflow)"@
    } else {
        match r.description {
            Some(d) => head + "  "@ + d,
            None => head,
        }
    }
}

/// A recipe's line in a listing whose names are `width` wide.
pub fn recipe_line(r: &Recipe, width: usize) -> (line: String)
    ensures
        line@ == recipe_line_text(r@, width as nat),
{
    let name = pad_right(&r.name, width);
    let head = concat2("  ", &name);
    if r.workflow_name.is_none() {
        return concat2(&head, "  (does not parse as a workflow)");
    }
    match &r.description {
        Some(d) => concat3(&head, "  ", d),
        None => head,
    }
}

/// The width of the longest name, in bytes.
pub open spec fn widest(rs: Seq<RecipeView>) -> nat
    decreases rs.len(),
{
    if rs.len() == 0 {
        0
    } else {
        let before = widest(rs.drop_last());
        if byte_len(rs.last().name) > before {
            byte_len(rs.last().name)
        } else {
            before
        }
    }
}

/// The lines of a listing.
pub open spec fn listing_lines(rs: Seq<RecipeView>) -> Seq<Seq<char>> {
    Seq::new(rs.len(), |i: int| recipe_line_text(rs[i], widest(rs)))
}

/// The width of the longest name, if it can be a width.
pub fn name_width(rs: &Vec<Recipe>) -> (r: Option<usize>)
    ensures
        match r {
            Some(w) => w == widest(views(rs@)),
            None => widest(views(rs@)) > usize::MAX,
        },
{
    let ghost all = views(rs@);
    let mut w: u128 = 0;
    let mut i: usize = 0;
    assert(all.take(0) =~= Seq::<RecipeView>::empty());
    while i < rs.len()
        invariant
            i <= rs.len(),
            all == views(rs@),
            w == widest(all.take(i as int)),
        decreases rs.len() - i,
    {
        assert(all.take(i + 1).drop_last() =~= all.take(i as int));
        assert(all[i as int] == rs@[i as int]@);
        let v = chars_of(&rs[i].name);
        assert(v@.skip(0) =~= v@);
        let n = bytes_from(&v, 0);
        if n > w {
            w = n;
        }
        i += 1;
    }
    assert(all.take(i as int) =~= all);
    if w <= usize::MAX as u128 {
        Some(w as usize)
    } else {
        None
    }
}

/// The lines of a listing of recipes.
pub fn listing(rs: &Vec<Recipe>, width: usize) -> (r: Vec<String>)
    requires
        width == widest(views(rs@)),
    ensures
        texts(r@) == listing_lines(views(rs@)),
{
    let ghost want = listing_lines(views(rs@));
    let mut out: Vec<String> = Vec::new();
    let mut i: usize = 0;
    assert(texts(out@) =~= want.take(0));
    while i < rs.len()
        invariant
            i <= rs.len(),
            want == listing_lines(views(rs@)),
            width == widest(views(rs@)),
            texts(out@) == want.take(i as int),
        decreases rs.len() - i,
    {
        let ghost was = out@;
        assert(views(rs@)[i as int] == rs@[i as int]@);
        let x = recipe_line(&rs[i], width);
        out.push(x);
        assert(texts(out@) =~= texts(was).push(x@));
        assert(want.take(i + 1) =~= want.take(i as int).push(want[i as int]));
        i += 1;
    }
    assert(want.take(i as int) =~= want);
    out
}

/// What a missing recipe is answered.
pub open spec fn not_found_text(name: Seq<char>, dir: Seq<char>, names: Seq<Seq<char>>) -> Seq<char> {
    let hint = if names.len() == 0 {
        "the catalog at "@ + dir + " is empty"@
    } else {
        "available recipes: "@ + joined(names, ", "@)
    };
    "no recipe named '"@ + name + "' in "@ + dir + " ("@ + hint + ")"@
}

/// What a missing recipe is answered: which ones there are.
pub fn not_found(name: &str, dir: &str, names: &Vec<String>) -> (r: String)
    ensures
        r@ == not_found_text(name@, dir@, texts(names@)),
{
    let hint = if names.len() == 0 {
        concat3("the catalog at ", dir, " is empty")
    } else {
        let all = join(names, ", ");
        concat2("available recipes: ", &all)
    };
    let head = concat5("no recipe named '", name, "' in ", dir, " (");
    concat3(&head, &hint, ")")
}

/// A recipe is only looked for under names within the catalog: no candidate holds a separator.
pub proof fn candidates_stay_in_the_catalog(name: Seq<char>, i: int)
    requires
        0 <= i < candidate_names(name).len(),
    ensures
        !candidate_names(name)[i].contains('/'),
        !candidate_names(name)[i].contains('\\'),
        candidate_names(name)[i] != "."@,
        candidate_names(name)[i] != ".."@,
{
    reveal_strlit(".yaml");
    reveal_strlit(".yml");
    reveal_strlit(".");
    reveal_strlit("..");
    let c = candidate_names(name)[i];
    assert(c.len() > 2);
    if c.contains('/') {
        let k = choose|k: int| 0 <= k < c.len() && c[k] == '/';
        if k < name.len() {
            assert(name[k] == '/');
        }
    }
    if c.contains('\\') {
        let k = choose|k: int| 0 <= k < c.len() && c[k] == '\\';
        if k < name.len() {
            assert(name[k] == '\\');
        }
    }
}

/// A recipe's name is its file's name without the last extension.
pub proof fn a_recipe_is_named_by_its_stem(stem: Seq<char>, ext: Seq<char>)
    requires
        stem.len() > 0,
        !ext.contains('.'),
    ensures
        file_stem(stem + seq!['.'] + ext) == stem,
{
    let s = stem + seq!['.'] + ext;
    lemma_stem(s, s.len(), stem.len() as int);
    assert(s.take(stem.len() as int) =~= stem);
}

proof fn lemma_stem(s: Seq<char>, n: nat, at: int)
    requires
        0 < at < n <= s.len(),
        s[at] == '.',
        forall|i: int| at < i < s.len() ==> s[i] != '.',
    ensures
        stem_upto(s, n) == at,
    decreases n,
{
    if n - 1 > at {
        assert(s[n - 1] != '.');
        lemma_stem(s, (n - 1) as nat, at);
    }
}

/// Exactly the YAML files of a catalog are recipes.
pub proof fn the_yaml_files_are_the_recipes(names: Seq<Seq<char>>, name: Seq<char>)
    ensures
        yaml_names(names).contains(name) == (names.contains(name) && yaml_name(name)),
    decreases names.len(),
{
    if names.len() > 0 {
        let d = names.drop_last();
        the_yaml_files_are_the_recipes(d, name);
        let before = yaml_names(d);
        let all = yaml_names(names);
        if before.contains(name) {
            let i = choose|i: int| 0 <= i < before.len() && before[i] == name;
            assert(all[i] == name);
        }
        if yaml_name(names.last()) {
            assert(all[before.len() as int] == names.last());
        }
        if all.contains(name) {
            let i = choose|i: int| 0 <= i < all.len() && all[i] == name;
            if i < before.len() {
                assert(before[i] == name);
            }
        }
        if d.contains(name) {
            let i = choose|i: int| 0 <= i < d.len() && d[i] == name;
            assert(names[i] == name);
        }
        if names.contains(name) {
            let i = choose|i: int| 0 <= i < names.len() && names[i] == name;
            if i < d.len() {
                assert(d[i] == name);
            }
        }
        assert(names[names.len() - 1] == names.last());
    }
}

/// A recipe is looked up under its name with either extension, `.yaml` first; a name that could
/// leave the catalog is looked up nowhere.
pub proof fn a_recipe_is_looked_up_by_its_name(name: Seq<char>)
    ensures
        name.len() > 0 && name != "."@ && name != ".."@ && !name.contains('/') && !name.contains(
            '\\',
        ) && !name.contains('\0') ==> candidate_names(name) == seq![
            name + ".yaml"@,
            name + ".yml"@,
        ],
        name.len() == 0 || name.contains('/') || name.contains('\\') || name == ".."@ || name
            == "."@ ==> candidate_names(name).len() == 0,
{
}

/// A file is YAML exactly when something stands before `.yaml` or `.yml` at its end.
pub proof fn a_yaml_file_has_its_extension(stem: Seq<char>)
    requires
        stem.len() > 0,
    ensures
        yaml_name(stem + ".yaml"@),
        yaml_name(stem + ".yml"@),
        !yaml_name(".yaml"@),
        !yaml_name(".yml"@),
{
    reveal_strlit(".yaml");
    reveal_strlit(".yml");
    let a = stem + ".yaml"@;
    let b = stem + ".yml"@;
    assert(a.skip(a.len() - 5) =~= ".yaml"@);
    assert(b.skip(b.len() - 4) =~= ".yml"@);
    assert(".yaml"@.skip(1)[0] == 'y');
    assert(".yml"@[0] == '.');
    if has_extension(".yaml"@, ".yml"@) {
        assert(".yaml"@.skip(1) == ".yml"@);
    }
}

/// Every recipe has a line in a listing: its name, and what it is for, or that it cannot be read.
pub proof fn every_recipe_has_a_line(rs: Seq<RecipeView>, i: int)
    requires
        0 <= i < rs.len(),
    ensures
        listing_lines(rs).len() == rs.len(),
        ({
            let line = listing_lines(rs)[i];
            let head = "  "@ + padded_right(rs[i].name, widest(rs));
            &&& rs[i].workflow_name is None ==> line == head
                + "  (does not parse as a workflow)"@
            &&& rs[i].workflow_name is Some ==> (rs[i].description matches Some(d) ==> line == head
                + "  "@ + d)
            &&& rs[i].workflow_name is Some && rs[i].description is None ==> line == head
        }),
        byte_len(rs[i].name) <= widest(rs),
    decreases rs.len(),
{
    if i < rs.len() - 1 {
        assert(rs.drop_last()[i] == rs[i]);
        every_recipe_has_a_line(rs.drop_last(), i);
    }
}

/// Recipes are listed by their names, and those of one name by their files.
pub proof fn recipes_are_listed_by_name(files: Seq<Seq<char>>, i: int, j: int)
    requires
        in_listed_order(files),
        0 <= i < j < files.len(),
    ensures
        !text_less(file_stem(files[j]), file_stem(files[i])),
        file_stem(files[i]) == file_stem(files[j]) ==> !text_less(files[j], files[i]),
{
    assert(!listed_before(files[j], files[i]));
}

} // verus!
