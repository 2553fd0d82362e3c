//! Resource names of the form `projects/{project}/{collection}/{id}`.
use vstd::prelude::*;

use crate::text;

verus! {

/// The name of a resource: `projects/`, the project, the collection in slashes, and the id.
pub open spec fn name_text(project: Seq<char>, collection: Seq<char>, id: Seq<char>) -> Seq<char> {
    "projects/"@ + project + collection + id
}

/// Whether `text` is the name of a resource. A project has no slash in it.
pub open spec fn is_name(
    text: Seq<char>,
    project: Seq<char>,
    collection: Seq<char>,
    id: Seq<char>,
) -> bool {
    !project.contains('/') && text == name_text(project, collection, id)
}

/// The project and the id of a name; none where the text is no name.
pub open spec fn name_read(text: Seq<char>, collection: Seq<char>) -> Option<
    (Seq<char>, Seq<char>),
> {
    if exists|project: Seq<char>, id: Seq<char>| is_name(text, project, collection, id) {
        Some(choose|project: Seq<char>, id: Seq<char>| is_name(text, project, collection, id))
    } else {
        None
    }
}

/// A name is read as what it names.
pub proof fn law_name_reads_back(project: Seq<char>, collection: Seq<char>, id: Seq<char>)
    requires
        !project.contains('/'),
        collection.len() > 0,
        collection[0] == '/',
    ensures
        name_read(name_text(project, collection, id), collection) == Some((project, id)),
{
    let text = name_text(project, collection, id);
    assert(is_name(text, project, collection, id));
    let (p, i) = choose|p: Seq<char>, i: Seq<char>| is_name(text, p, collection, i);
    law_name_has_one_reading(project, id, p, i, collection);
}

/// A name has one project and one id.
pub proof fn law_name_has_one_reading(
    project1: Seq<char>,
    id1: Seq<char>,
    project2: Seq<char>,
    id2: Seq<char>,
    collection: Seq<char>,
)
    requires
        !project1.contains('/'),
        !project2.contains('/'),
        collection.len() > 0,
        collection[0] == '/',
        name_text(project1, collection, id1) == name_text(project2, collection, id2),
    ensures
        project1 == project2,
        id1 == id2,
{
    let n = "projects/"@.len() as int;
    let text = name_text(project1, collection, id1);
    let text2 = name_text(project2, collection, id2);
    assert(text[n + project1.len()] == '/');
    assert(text2[n + project2.len()] == '/');
    if project1.len() < project2.len() {
        assert(text2[n + project1.len()] == project2[project1.len() as int]);
        assert(project2.contains('/'));
    }
    if project2.len() < project1.len() {
        assert(text[n + project2.len()] == project1[project2.len() as int]);
        assert(project1.contains('/'));
    }
    assert(project1 =~= text.subrange(n, n + project1.len()));
    assert(project2 =~= text2.subrange(n, n + project2.len()));
    let m = n + project1.len() + collection.len();
    assert(id1 =~= text.subrange(m, text.len() as int));
    assert(id2 =~= text2.subrange(m, text2.len() as int));
}

/// The characters from `start` to `end`.
fn copy_range(chars: &Vec<char>, start: usize, end: usize) -> (s: String)
    requires
        start <= end <= chars@.len(),
    ensures
        s@ == chars@.subrange(start as int, end as int),
{
    let mut s = String::new();
    let mut i: usize = start;
    while i < end
        invariant
            start <= i <= end <= chars@.len(),
            s@ =~= chars@.subrange(start as int, i as int),
        decreases end - i,
    {
        s.push(chars[i]);
        i += 1;
    }
    s
}

/// Whether the characters of `part` stand at `at`.
fn stands_at(chars: &Vec<char>, at: usize, part: &str) -> (b: bool)
    requires
        at <= chars@.len(),
    ensures
        b == (at + part@.len() <= chars@.len() && chars@.subrange(at as int, at + part@.len())
            == part@),
{
    let wanted = text::chars_of(part);
    let len: usize = chars.len();
    if wanted.len() > len - at {
        return false;
    }
    let mut i: usize = 0;
    while i < wanted.len()
        invariant
            i <= wanted@.len(),
            at + wanted@.len() <= len,
            len == chars@.len(),
            wanted@ == part@,
            forall|j: int| 0 <= j < i ==> wanted@[j] == chars@[at + j],
        decreases wanted@.len() - i,
    {
        if wanted[i] != chars[at + i] {
            assert(chars@.subrange(at as int, at + part@.len())[i as int] != part@[i as int]);
            return false;
        }
        i += 1;
    }
    assert(chars@.subrange(at as int, at + part@.len()) =~= part@);
    true
}

/// Reads the project and the id of a name; none where the text is no name.
pub fn parse_name(raw: &str, collection: &str) -> (parts: Option<(String, String)>)
    requires
        collection@.len() > 0,
        collection@[0] == '/',
    ensures
        match parts {
            Some((project, id)) => name_read(raw@, collection@) == Some((project@, id@)),
            None => name_read(raw@, collection@) is None,
        },
{
    let chars = text::chars_of(raw);
    let ghost n = "projects/"@.len() as int;
    proof {
        reveal_strlit("projects/");
    }
    let start: usize = 9;
    if !stands_at(&chars, 0, "projects/") {
        proof {
            assert forall|project: Seq<char>, id: Seq<char>|
                !is_name(raw@, project, collection@, id) by {
                let t = name_text(project, collection@, id);
                assert(t.subrange(0, n) =~= "projects/"@);
            }
        }
        return None;
    }
    let mut end: usize = start;
    while end < chars.len() && chars[end] != '/'
        invariant
            start == 9,
            start <= end <= chars@.len(),
            forall|j: int| start <= j < end ==> chars@[j] != '/',
        decreases chars@.len() - end,
    {
        end += 1;
    }
    let ghost project = chars@.subrange(start as int, end as int);
    if !stands_at(&chars, end, collection) {
        proof {
            assert forall|p: Seq<char>, id: Seq<char>| !is_name(raw@, p, collection@, id) by {
                if is_name(raw@, p, collection@, id) {
                    lemma_project_end(chars@, p, collection@, id, end as int);
                }
            }
        }
        return None;
    }
    let len: usize = text::chars_of(collection).len();
    let project_id = copy_range(&chars, start, end);
    let id = copy_range(&chars, end + len, chars.len());
    proof {
        assert(!project_id@.contains('/')) by {
            if project_id@.contains('/') {
                let j = choose|j: int| 0 <= j < project_id@.len() && project_id@[j] == '/';
                assert(chars@[start + j] == '/');
            }
        }
        assert(chars@ =~= chars@.subrange(0, 9) + project_id@ + chars@.subrange(
            end as int,
            end + len,
        ) + id@);
        law_name_reads_back(project_id@, collection@, id@);
    }
    Some((project_id, id))
}

/// The project of a name ends at the first slash behind `projects/`, where the collection stands.
proof fn lemma_project_end(
    chars: Seq<char>,
    project: Seq<char>,
    collection: Seq<char>,
    id: Seq<char>,
    end: int,
)
    requires
        is_name(chars, project, collection, id),
        collection.len() > 0,
        collection[0] == '/',
        9 <= end <= chars.len(),
        forall|j: int| 9 <= j < end ==> chars[j] != '/',
        end == chars.len() || chars[end] == '/',
    ensures
        end + collection.len() <= chars.len(),
        chars.subrange(end, end + collection.len()) == collection,
{
    reveal_strlit("projects/");
    let e = 9 + project.len();
    assert(chars[e as int] == '/');
    assert(e >= end);
    if end < e {
        assert(chars[end] == project[end - 9]);
        assert(project.contains('/'));
    }
    assert(chars.subrange(end, end + collection.len()) =~= collection);
}

/// The name of a resource.
pub fn write_name(project: &str, collection: &str, id: &str) -> (name: String)
    ensures
        name@ == name_text(project@, collection@, id@),
{
    let mut name = "projects/".to_owned();
    name.push_str(project);
    name.push_str(collection);
    name.push_str(id);
    name
}

} // verus!
