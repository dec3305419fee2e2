//! User-defined templates, kept as JSON in the application data directory
//! apart from the built-in ones. The list operations are here; reading and
//! writing the file is left to the caller.
use vstd::prelude::*;

use crate::paths::{join, join_path};
use crate::template::{template_views, Template, TemplateView};
use crate::text::{chars_eq, chars_of};

verus! {

/// The file that holds the user templates, in the application data
/// directory.
pub fn file_path(app_data_dir: &str) -> (r: String)
    ensures
        r@ == join_path(app_data_dir@, "user_templates.json"@),
{
    join(app_data_dir, "user_templates.json")
}

/// The index of the first template in `v` named `n`.
pub open spec fn template_index(v: Seq<TemplateView>, n: Seq<char>) -> Option<int>
    decreases v.len(),
{
    if v.len() == 0 {
        None
    } else if v[0].name == n {
        Some(0)
    } else {
        match template_index(v.drop_first(), n) {
            Some(k) => Some(k + 1),
            None => None,
        }
    }
}

/// `v` with `t` in place of its first template of the same name, or with `t`
/// appended when it has none.
pub open spec fn upserted(v: Seq<TemplateView>, t: TemplateView) -> Seq<TemplateView> {
    match template_index(v, t.name) {
        Some(k) => v.update(k, t),
        None => v.push(t),
    }
}

/// `v` without the templates named `n`.
pub open spec fn without_template(v: Seq<TemplateView>, n: Seq<char>) -> Seq<TemplateView>
    decreases v.len(),
{
    if v.len() == 0 {
        Seq::empty()
    } else {
        let r = without_template(v.drop_last(), n);
        if v.last().name == n {
            r
        } else {
            r.push(v.last())
        }
    }
}

/// The index of the first template named `name`.
fn find_template(v: &Vec<Template>, name: &str) -> (r: Option<usize>)
    ensures
        match r {
            Some(k) => template_index(template_views(v@), name@) == Some(k as int) && k < v@.len(),
            None => template_index(template_views(v@), name@) is None,
        },
{
    let target = chars_of(name);
    let ghost tv = template_views(v@);
    let mut i: usize = 0;
    assert(tv.skip(0) =~= tv);
    while i < v.len()
        invariant
            i <= v@.len(),
            tv == template_views(v@),
            target@ == name@,
            template_index(tv, name@) == match template_index(tv.skip(i as int), name@) {
                Some(k) => Some(k + i),
                None => None,
            },
        decreases v@.len() - i,
    {
        let ghost rest = tv.skip(i as int);
        assert(rest[0] == v@[i as int]@);
        if chars_eq(&chars_of(v[i].name.as_str()), &target) {
            return Some(i);
        }
        assert(rest.drop_first() =~= tv.skip(i + 1));
        i = i + 1;
    }
    assert(tv.skip(i as int).len() == 0);
    None
}

/// Adds a user template, or replaces the first one with the same name.
pub fn upsert(templates: Vec<Template>, template: Template) -> (r: Vec<Template>)
    ensures
        template_views(r@) == upserted(template_views(templates@), template@),
{
    let mut v = templates;
    let ghost v0 = template_views(v@);
    match find_template(&v, template.name.as_str()) {
        Some(k) => {
            let ghost t = template@;
            v.set(k, template);
            assert(template_views(v@) =~= v0.update(k as int, t));
        },
        None => {
            let ghost t = template@;
            v.push(template);
            assert(template_views(v@) =~= v0.push(t));
        },
    }
    v
}

/// Deletes the user templates named `name`; a name that no template has
/// leaves the list as it is.
pub fn delete(templates: Vec<Template>, name: &str) -> (r: Vec<Template>)
    ensures
        template_views(r@) == without_template(template_views(templates@), name@),
{
    let target = chars_of(name);
    let mut r: Vec<Template> = Vec::new();
    let mut i: usize = 0;
    while i < templates.len()
        invariant
            i <= templates@.len(),
            target@ == name@,
            template_views(r@) == without_template(template_views(templates@).take(i as int), name@),
        decreases templates@.len() - i,
    {
        let ghost cur = template_views(templates@).take(i + 1);
        assert(cur.drop_last() =~= template_views(templates@).take(i as int));
        assert(cur.last() == templates@[i as int]@);
        if !chars_eq(&chars_of(templates[i].name.as_str()), &target) {
            let ghost r0 = r@;
            let x = templates[i].duplicate();
            r.push(x);
            assert(template_views(r@) =~= template_views(r0).push(x@));
        }
        i = i + 1;
    }
    assert(template_views(templates@).take(templates@.len() as int) =~= template_views(templates@));
    r
}

/// What `template_index` returns, characterised.
pub proof fn lemma_template_index(v: Seq<TemplateView>, n: Seq<char>)
    ensures
        match template_index(v, n) {
            Some(k) => 0 <= k < v.len() && v[k].name == n && forall|j: int|
                0 <= j < k ==> v[j].name != n,
            None => forall|j: int| 0 <= j < v.len() ==> v[j].name != n,
        },
    decreases v.len(),
{
    if v.len() > 0 && v[0].name != n {
        lemma_template_index(v.drop_first(), n);
        assert forall|j: int| 0 < j < v.len() implies #[trigger] v[j] == v.drop_first()[j - 1] by {}
    }
}

/// `template_index` is the first index with the name.
proof fn lemma_template_index_is(v: Seq<TemplateView>, n: Seq<char>, k: int)
    requires
        0 <= k < v.len(),
        v[k].name == n,
        forall|j: int| 0 <= j < k ==> v[j].name != n,
    ensures
        template_index(v, n) == Some(k),
{
    lemma_template_index(v, n);
    match template_index(v, n) {
        Some(a) => {
            if a < k {
                assert(v[a].name != n);
            } else if k < a {
                assert(v[k].name != n);
            }
        },
        None => {
            assert(v[k].name != n);
        },
    }
}

/// After a template is saved, looking its name up finds it.
pub proof fn lemma_saved_template_found(v: Seq<TemplateView>, t: TemplateView)
    ensures
        template_index(upserted(v, t), t.name) matches Some(k) && upserted(v, t)[k] == t,
{
    lemma_template_index(v, t.name);
    let u = upserted(v, t);
    match template_index(v, t.name) {
        Some(k) => {
            assert forall|j: int| 0 <= j < k implies u[j].name != t.name by {
                assert(u[j] == v[j]);
            }
            lemma_template_index_is(u, t.name, k);
        },
        None => {
            assert forall|j: int| 0 <= j < v.len() implies u[j].name != t.name by {
                assert(u[j] == v[j]);
            }
            lemma_template_index_is(u, t.name, v.len() as int);
        },
    }
}

/// After the templates of a name are deleted, none of that name is left.
pub proof fn lemma_deleted_template_gone(v: Seq<TemplateView>, n: Seq<char>)
    ensures
        forall|k: int| 0 <= k < without_template(v, n).len() ==> (#[trigger] without_template(
            v,
            n,
        )[k]).name != n,
        template_index(without_template(v, n), n) is None,
    decreases v.len(),
{
    if v.len() > 0 {
        lemma_deleted_template_gone(v.drop_last(), n);
        let r = without_template(v.drop_last(), n);
        assert forall|k: int| 0 <= k < without_template(v, n).len() implies (
        #[trigger] without_template(v, n)[k]).name != n by {
            if k < r.len() {
                assert(without_template(v, n)[k] == r[k]);
            }
        }
    }
    lemma_template_index(without_template(v, n), n);
}

} // verus!
