use vstd::prelude::*;
use crate::utils::{join_seq, views};

verus! {

/// How a text is matched against stored values.
#[derive(Clone, Copy, Debug, PartialEq, Eq, Structural)]
pub enum DBLookupType {
    /// The stored value is the text itself.
    Exact,
    /// The text stands somewhere in the stored value.
    Patterned,
}

/// A value that travels to the store beside a statement, bound to a named parameter.
#[derive(Debug)]
pub enum SqlParam {
    Null,
    Bool(bool),
    Int(i64),
    Text(String),
    List(Vec<String>),
}

/// A bound value, as a mathematical value.
pub ghost enum SqlParamView {
    Null,
    Bool(bool),
    Int(int),
    Text(Seq<char>),
    List(Seq<Seq<char>>),
}

impl View for SqlParam {
    type V = SqlParamView;

    open spec fn view(&self) -> SqlParamView {
        match self {
            SqlParam::Null => SqlParamView::Null,
            SqlParam::Bool(b) => SqlParamView::Bool(*b),
            SqlParam::Int(i) => SqlParamView::Int(*i as int),
            SqlParam::Text(t) => SqlParamView::Text(t@),
            SqlParam::List(l) => SqlParamView::List(views(l@)),
        }
    }
}

/// A statement under construction: literal fragments in the order of their clauses, and the
/// named values bound so far, in the order in which they were registered. Variable data
/// enters a statement only as a bound value, never as part of a fragment.
pub struct Query {
    params: Vec<(&'static str, SqlParam)>,
    query: Vec<&'static str>,
}

/// What a statement under construction holds.
pub ghost struct QueryView {
    pub fragments: Seq<Seq<char>>,
    pub params: Seq<(Seq<char>, SqlParamView)>,
}

impl QueryView {
    /// The statement text: the fragments joined by single spaces.
    pub open spec fn text(self) -> Seq<char> {
        join_seq(self.fragments, " "@)
    }

    /// This statement with one more fragment and no new binding.
    pub open spec fn with(self, fragment: Seq<char>) -> QueryView {
        QueryView { fragments: self.fragments.push(fragment), ..self }
    }

    /// This statement with one more fragment and one more binding.
    pub open spec fn with_param(
        self,
        fragment: Seq<char>,
        name: Seq<char>,
        value: SqlParamView,
    ) -> QueryView {
        QueryView {
            fragments: self.fragments.push(fragment),
            params: self.params.push((name, value)),
        }
    }

    /// The statement that holds nothing yet.
    pub open spec fn empty() -> QueryView {
        QueryView { fragments: Seq::empty(), params: Seq::empty() }
    }
}

/// The views of a list of fragments.
pub open spec fn fragment_views(v: Seq<&'static str>) -> Seq<Seq<char>> {
    Seq::new(v.len(), |i: int| v[i]@)
}

/// The views of a list of bindings.
pub open spec fn param_views(v: Seq<(&'static str, SqlParam)>) -> Seq<(Seq<char>, SqlParamView)> {
    Seq::new(v.len(), |i: int| (v[i].0@, v[i].1@))
}

impl View for Query {
    type V = QueryView;

    closed spec fn view(&self) -> QueryView {
        QueryView { fragments: fragment_views(self.query@), params: param_views(self.params@) }
    }
}

impl Query {
    /// A statement without fragments or bindings.
    pub fn new() -> (q: Query)
        ensures
            q@ == QueryView::empty(),
    {
        let q = Query { params: Vec::new(), query: Vec::new() };
        proof {
            assert(q@.fragments =~= Seq::empty());
            assert(q@.params =~= Seq::empty());
        }
        q
    }

    /// A statement that starts with one fragment.
    pub fn new_with_initial(initial_query: &'static str) -> (q: Query)
        ensures
            q@ == QueryView::empty().with(initial_query@),
    {
        let mut q = Query::new();
        q.concat(initial_query);
        q
    }

    /// Adds a fragment; no value is bound.
    pub fn concat(&mut self, query_str: &'static str)
        ensures
            final(self)@ == old(self)@.with(query_str@),
    {
        self.query.push(query_str);
        proof {
            assert(fragment_views(self.query@) =~= fragment_views(old(self).query@).push(
                query_str@,
            ));
        }
    }

    /// Adds a fragment and binds a value to the name that the fragment refers to.
    pub fn concat_with_param(&mut self, query_str: &'static str, query_param: (&'static str, SqlParam))
        ensures
            final(self)@ == old(self)@.with_param(query_str@, query_param.0@, query_param.1@),
    {
        self.params.push(query_param);
        proof {
            assert(param_views(self.params@) =~= param_views(old(self).params@).push(
                (query_param.0@, query_param.1@),
            ));
        }
        self.concat(query_str);
    }

    /// The statement text: the fragments joined by single spaces.
    pub fn build(&self) -> (text: String)
        ensures
            text@ == self@.text(),
    {
        let mut text = String::new();
        let mut i: usize = 0;
        while i < self.query.len()
            invariant
                i <= self.query.len(),
                text@ == join_seq(fragment_views(self.query@).take(i as int), " "@),
            decreases self.query.len() - i,
        {
            let ghost upto = fragment_views(self.query@).take(i as int + 1);
            proof {
                assert(upto.drop_last() =~= fragment_views(self.query@).take(i as int));
                assert(upto.last() == self.query@[i as int]@);
            }
            if i > 0 {
                text.append(" ");
            }
            text.append(self.query[i]);
            proof {
                if i == 0 {
                    assert(text@ =~= self.query@[0]@);
                }
            }
            i = i + 1;
        }
        proof {
            assert(fragment_views(self.query@).take(self.query@.len() as int)
                =~= fragment_views(self.query@));
        }
        text
    }

    /// The bindings, in the order in which they were registered.
    pub fn named_params(&self) -> (params: &[(&'static str, SqlParam)])
        ensures
            param_views(params@) == self@.params,
    {
        self.params.as_slice()
    }

    /// `arg` between two `%`: the pattern that finds `arg` anywhere in a value.
    pub fn patternize(arg: &str) -> (pattern: String)
        ensures
            pattern@ == "%"@ + arg@ + "%"@,
    {
        let mut pattern = String::from_str("%");
        pattern.append(arg);
        pattern.append("%");
        pattern
    }
}

} // verus!
