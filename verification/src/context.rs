//! The state a template is compiled in: the size of its literal text, its
//! parameters, the components it uses, and the fields of the struct it
//! renders.
use vstd::prelude::*;
use crate::text::same_text;

verus! {

/// A component imported with `@use`: its name, the path of its template, and
/// the name of the function that template compiles to.
#[derive(Debug, Clone)]
pub struct UseDirective {
    name: String,
    path: String,
    fn_name: String,
    params: Vec<(String, String)>,
    source: String,
}

pub struct UseV {
    pub name: Seq<char>,
    pub path: Seq<char>,
    pub fn_name: Seq<char>,
    pub params: Seq<(Seq<char>, Seq<char>)>,
    pub source: Seq<char>,
}

impl DeepView for UseDirective {
    type V = UseV;

    closed spec fn deep_view(&self) -> UseV {
        UseV {
            name: self.name@,
            path: self.path@,
            fn_name: self.fn_name@,
            params: self.params.deep_view(),
            source: self.source@,
        }
    }
}

impl UseDirective {
    /// A component `name` defined by the template at `path`, compiled to `fn_name`.
    pub fn new(name: String, path: String, fn_name: String) -> (r: Self)
        ensures
            r.deep_view() == (UseV {
                name: name@,
                path: path@,
                fn_name: fn_name@,
                params: Seq::empty(),
                source: Seq::empty(),
            }),
    {
        let r = UseDirective { name, path, fn_name, params: Vec::new(), source: String::new() };
        assert(r.params.deep_view() =~= Seq::<(Seq<char>, Seq<char>)>::empty());
        r
    }

    pub fn name(&self) -> (r: &str)
        ensures
            r@ == self.deep_view().name,
    {
        self.name.as_str()
    }

    pub fn path(&self) -> (r: &str)
        ensures
            r@ == self.deep_view().path,
    {
        self.path.as_str()
    }

    pub fn fn_name(&self) -> (r: &str)
        ensures
            r@ == self.deep_view().fn_name,
    {
        self.fn_name.as_str()
    }
}

/// Two use directives are the same when their paths are (as in a set keyed
/// by path).
pub fn same_path(a: &UseDirective, b: &UseDirective) -> (r: bool)
    ensures
        r == (a.deep_view().path == b.deep_view().path),
{
    a.path == b.path
}

/// The state of a compilation.
pub struct St {
    pub text_size: nat,
    pub fn_name: Seq<char>,
    pub params: Seq<(Seq<char>, Seq<char>)>,
    pub uses: Seq<UseV>,
    pub fields: Seq<Seq<char>>,
}

/// Some use directive in `uses` has path `p`.
pub open spec fn has_path(uses: Seq<UseV>, p: Seq<char>) -> bool {
    exists|i: int| 0 <= i < uses.len() && #[trigger] uses[i].path == p
}

/// No two use directives share a path.
pub open spec fn distinct_paths(uses: Seq<UseV>) -> bool {
    forall|i: int, j: int|
        0 <= i < uses.len() && 0 <= j < uses.len() && i != j ==> #[trigger] uses[i].path
            != #[trigger] uses[j].path
}

/// Adding `u` to a set of use directives keyed by path: nothing changes when
/// one with the same path is there already.
pub open spec fn insert_use(uses: Seq<UseV>, u: UseV) -> Seq<UseV> {
    if has_path(uses, u.path) {
        uses
    } else {
        uses.push(u)
    }
}

/// The first use directive named `name`.
pub open spec fn find_use_from(uses: Seq<UseV>, name: Seq<char>, i: int) -> Option<int>
    decreases uses.len() - i,
{
    if i < 0 || i >= uses.len() {
        None
    } else if uses[i].name == name {
        Some(i)
    } else {
        find_use_from(uses, name, i + 1)
    }
}

pub open spec fn find_use(uses: Seq<UseV>, name: Seq<char>) -> Option<int> {
    find_use_from(uses, name, 0)
}

/// Inserting a use directive keeps the paths distinct, and afterwards the set
/// holds a directive with its path.
pub proof fn insert_keeps_paths_distinct(uses: Seq<UseV>, u: UseV)
    requires
        distinct_paths(uses),
    ensures
        distinct_paths(insert_use(uses, u)),
        has_path(insert_use(uses, u), u.path),
        forall|i: int| 0 <= i < uses.len() ==> insert_use(uses, u)[i] == uses[i],
{
    if !has_path(uses, u.path) {
        let r = uses.push(u);
        assert(r[uses.len() as int].path == u.path);
    }
}

/// Inserting a directive whose path is present changes nothing; inserting it
/// twice is inserting it once.
pub proof fn insert_is_idempotent(uses: Seq<UseV>, u: UseV)
    ensures
        insert_use(insert_use(uses, u), u) == insert_use(uses, u),
{
    let r = insert_use(uses, u);
    if !has_path(uses, u.path) {
        assert(r[uses.len() as int].path == u.path);
    }
}

/// The compilation context: the size of the template's literal text, the
/// function it compiles to, its parameters, the components it uses (a set
/// keyed by path), and the fields of the struct it renders.
#[derive(Debug)]
pub struct Context {
    text_size: usize,
    fn_name: String,
    template_params: Vec<(String, String)>,
    use_directives: Vec<UseDirective>,
    struct_fields: Vec<String>,
}

impl View for Context {
    type V = St;

    closed spec fn view(&self) -> St {
        St {
            text_size: self.text_size as nat,
            fn_name: self.fn_name@,
            params: self.template_params.deep_view(),
            uses: self.use_directives.deep_view(),
            fields: self.struct_fields.deep_view(),
        }
    }
}

impl Context {
    #[verifier::type_invariant]
    closed spec fn inv(self) -> bool {
        distinct_paths(self.use_directives.deep_view())
    }

    /// The empty context.
    pub fn empty() -> (r: Self)
        ensures
            r@ == (St {
                text_size: 0,
                fn_name: Seq::empty(),
                params: Seq::empty(),
                uses: Seq::empty(),
                fields: Seq::empty(),
            }),
    {
        let r = Context {
            text_size: 0,
            fn_name: String::new(),
            template_params: Vec::new(),
            use_directives: Vec::new(),
            struct_fields: Vec::new(),
        };
        assert(r.template_params.deep_view() =~= Seq::<(Seq<char>, Seq<char>)>::empty());
        assert(r.use_directives.deep_view() =~= Seq::<UseV>::empty());
        assert(r.struct_fields.deep_view() =~= Seq::<Seq<char>>::empty());
        r
    }

    /// A context that starts with the given use directives; of several with
    /// the same path, the first is kept.
    pub fn new(use_directives: Vec<UseDirective>) -> (r: Self)
        ensures
            r@.text_size == 0,
            r@.fn_name == Seq::<char>::empty(),
            r@.params == Seq::<(Seq<char>, Seq<char>)>::empty(),
            r@.fields == Seq::<Seq<char>>::empty(),
            r@.uses == insert_all(Seq::empty(), use_directives.deep_view()),
    {
        let mut r = Self::empty();
        let mut rest = use_directives;
        let ghost all = rest.deep_view();
        let ghost mut taken: Seq<UseV> = Seq::empty();
        while rest.len() > 0
            invariant
                all == taken + rest.deep_view(),
                r@.uses == insert_all(Seq::empty(), taken),
                r@.text_size == 0,
                r@.fn_name == Seq::<char>::empty(),
                r@.params == Seq::<(Seq<char>, Seq<char>)>::empty(),
                r@.fields == Seq::<Seq<char>>::empty(),
            decreases rest.len(),
        {
            let ghost before = rest.deep_view();
            let u = rest.remove(0);
            proof {
                assert(before[0] == u.deep_view());
                assert(rest.deep_view() =~= before.drop_first());
                assert(all =~= taken.push(u.deep_view()) + rest.deep_view());
                assert(taken.push(u.deep_view()).drop_last() =~= taken);
                taken = taken.push(u.deep_view());
            }
            r.insert_use_directive(u);
        }
        assert(taken =~= all);
        r
    }

    /// The same context with the fields of the struct being rendered.
    pub fn with_struct_fields(self, fields: Vec<String>) -> (r: Self)
        ensures
            r@ == (St { fields: fields.deep_view(), ..self@ }),
    {
        let mut r = self;
        proof { use_type_invariant(&r); }
        r.struct_fields = fields;
        r
    }

    pub fn text_size(&self) -> (r: usize)
        ensures
            r == self@.text_size,
    {
        self.text_size
    }

    pub fn fn_name(&self) -> (r: &str)
        ensures
            r@ == self@.fn_name,
    {
        self.fn_name.as_str()
    }

    pub fn template_params(&self) -> (r: &Vec<(String, String)>)
        ensures
            r.deep_view() == self@.params,
    {
        &self.template_params
    }

    /// The use directives, no two of which share a path.
    pub fn use_directives(&self) -> (r: &Vec<UseDirective>)
        ensures
            r.deep_view() == self@.uses,
            distinct_paths(self@.uses),
    {
        proof { use_type_invariant(self); }
        &self.use_directives
    }

    pub fn struct_fields(&self) -> (r: &Vec<String>)
        ensures
            r.deep_view() == self@.fields,
    {
        &self.struct_fields
    }

    /// Counts `n` more characters of literal text.
    pub fn add_text_size(&mut self, n: usize)
        requires
            old(self)@.text_size + n <= usize::MAX,
        ensures
            final(self)@ == (St { text_size: (old(self)@.text_size + n) as nat, ..old(self)@ }),
    {
        proof { use_type_invariant(&*self); }
        self.text_size = self.text_size + n;
    }

    pub fn set_fn_name(&mut self, name: String)
        ensures
            final(self)@ == (St { fn_name: name@, ..old(self)@ }),
    {
        proof { use_type_invariant(&*self); }
        self.fn_name = name;
    }

    pub fn set_template_params(&mut self, params: Vec<(String, String)>)
        ensures
            final(self)@ == (St { params: params.deep_view(), ..old(self)@ }),
    {
        proof { use_type_invariant(&*self); }
        self.template_params = params;
    }

    /// Adds a use directive unless one with the same path is there.
    pub fn insert_use_directive(&mut self, u: UseDirective)
        ensures
            final(self)@ == (St {
                uses: insert_use(old(self)@.uses, u.deep_view()),
                ..old(self)@
            }),
    {
        proof { use_type_invariant(&*self); }
        let mut i: usize = 0;
        while i < self.use_directives.len()
            invariant
                i <= self.use_directives@.len(),
                forall|j: int|
                    0 <= j < i ==> (#[trigger] self.use_directives.deep_view()[j]).path
                        != u.deep_view().path,
            decreases self.use_directives@.len() - i,
        {
            if same_path(&self.use_directives[i], &u) {
                assert(has_path(self@.uses, u.deep_view().path)) by {
                    assert(self@.uses[i as int].path == u.deep_view().path);
                }
                return ;
            }
            i = i + 1;
        }
        let ghost old_uses = self.use_directives.deep_view();
        proof {
            insert_keeps_paths_distinct(old_uses, u.deep_view());
            assert(!has_path(old_uses, u.deep_view().path));
        }
        let ghost uv = u.deep_view();
        let mut v: Vec<UseDirective> = Vec::new();
        std::mem::swap(&mut v, &mut self.use_directives);
        v.push(u);
        assert(v.deep_view() =~= old_uses.push(uv));
        self.use_directives = v;
    }

    /// The first use directive named `name`.
    pub fn find_use_directive(&self, name: &str) -> (r: Option<&UseDirective>)
        ensures
            match find_use(self@.uses, name@) {
                Some(i) => r matches Some(u) && u.deep_view() == self@.uses[i],
                None => r is None,
            },
    {
        let mut i: usize = 0;
        while i < self.use_directives.len()
            invariant
                i <= self.use_directives@.len(),
                find_use_from(self@.uses, name@, i as int) == find_use(self@.uses, name@),
                self.use_directives.deep_view() == self@.uses,
            decreases self.use_directives@.len() - i,
        {
            let u = &self.use_directives[i];
            if same_text(u.name.as_str(), name) {
                return Some(u);
            }
            i = i + 1;
        }
        None
    }
}

/// The use directives of `items` added one after another to `uses`.
pub open spec fn insert_all(uses: Seq<UseV>, items: Seq<UseV>) -> Seq<UseV>
    decreases items.len(),
{
    if items.len() == 0 {
        uses
    } else {
        insert_use(insert_all(uses, items.drop_last()), items.last())
    }
}

impl Default for Context {
    fn default() -> (r: Self)
        ensures
            r@ == (St {
                text_size: 0,
                fn_name: Seq::empty(),
                params: Seq::empty(),
                uses: Seq::empty(),
                fields: Seq::empty(),
            }),
    {
        Self::empty()
    }
}

} // verus!
