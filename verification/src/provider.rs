//! Values shared by the answer providers.
use vstd::prelude::*;

verus! {

/// One web source cited by an answer.
#[derive(Debug)]
pub struct StreamSource {
    pub title: String,
    pub url: String,
}

impl View for StreamSource {
    type V = (Seq<char>, Seq<char>);

    open spec fn view(&self) -> (Seq<char>, Seq<char>) {
        (self.title@, self.url@)
    }
}

pub open spec fn source_views(v: Seq<StreamSource>) -> Seq<(Seq<char>, Seq<char>)> {
    v.map_values(|s: StreamSource| s@)
}

impl StreamSource {
    /// A copy with the same title and URL.
    pub fn duplicate(&self) -> (r: StreamSource)
        ensures
            r@ == self@,
    {
        StreamSource { title: self.title.clone(), url: self.url.clone() }
    }
}

/// A copy of a list of sources, element by element.
pub fn duplicate_sources(v: &Vec<StreamSource>) -> (r: Vec<StreamSource>)
    ensures
        source_views(r@) == source_views(v@),
{
    let mut r: Vec<StreamSource> = Vec::new();
    let mut i: usize = 0;
    while i < v.len()
        invariant
            i <= v.len(),
            source_views(r@) == source_views(v@.subrange(0, i as int)),
        decreases v.len() - i,
    {
        let s = v[i].duplicate();
        let ghost before = r@;
        r.push(s);
        assert(source_views(r@) =~= source_views(before).push(s@));
        i = i + 1;
        assert(source_views(r@) =~= source_views(v@.subrange(0, i as int)));
    }
    assert(v@.subrange(0, v.len() as int) =~= v@);
    r
}

} // verus!
