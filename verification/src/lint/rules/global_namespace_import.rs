//! In a namespaced file, global names written fully qualified (`\DateTime`)
//! should be imported with `use`.
use vstd::prelude::*;

use crate::lint::ast::{
    BinaryOperator, ExprKind, Expression, Hint, Identifier, NameSite, NamespaceMember, Program,
    TopStatement, UseItems, UseStatement,
};
use crate::lint::meta::{Category, NodeKind, RuleMeta};
use crate::lint::report::{
    bytes_of, edit_views, issue_views, utf8, Annotation, AnnotationSpec, EditSpec, Issue, IssueSpec, Level,
    Span, TextEdit,
};
use crate::lint::rules::no_unneeded_import_alias::{after_last, bytes_eq, last_segment};
use crate::text::{copy_range, has_byte, has_byte_in, push_all, views};

verus! {

/// The settings of the rule.
#[derive(Debug, Clone, Copy, PartialEq, Eq, Hash)]
pub struct GlobalNamespaceImportConfig {
    pub level: Level,
    pub import_classes: bool,
    pub import_functions: bool,
    pub import_constants: bool,
}

impl Default for GlobalNamespaceImportConfig {
    fn default() -> (r: Self)
        ensures
            r.level == Level::Warning,
            r.import_classes,
            !r.import_functions,
            !r.import_constants,
    {
        Self {
            level: Level::Warning,
            import_classes: true,
            import_functions: false,
            import_constants: false,
        }
    }
}

impl GlobalNamespaceImportConfig {
    /// The rule is off unless enabled.
    pub fn default_enabled() -> (r: bool)
        ensures
            !r,
    {
        false
    }

    /// The level of the issues it reports.
    pub fn level(&self) -> (r: Level)
        ensures
            r == self.level,
    {
        self.level
    }
}

/// The rule with its settings.
#[derive(Debug, Clone, Copy)]
pub struct GlobalNamespaceImportRule {
    pub meta: RuleMeta,
    pub cfg: GlobalNamespaceImportConfig,
}

/// What a fully-qualified name refers to, by where it stands.
#[derive(Debug, Clone, Copy, PartialEq, Eq, Structural)]
pub enum NameKind {
    Class,
    Function,
    Constant,
}

/// A fully-qualified global name found in the file.
#[derive(Debug, Clone)]
pub struct FqnReference {
    /// The name without its leading backslash, e.g. `DateTime`.
    pub name: Vec<u8>,
    /// The span of the whole `\DateTime`.
    pub span: Span,
    pub kind: NameKind,
}

/// The value of a reference.
pub struct RefSpec {
    pub name: Seq<u8>,
    pub span: Span,
    pub kind: NameKind,
}

impl View for FqnReference {
    type V = RefSpec;

    open spec fn view(&self) -> RefSpec {
        RefSpec { name: self.name@, span: self.span, kind: self.kind }
    }
}

/// The values of a sequence of references.
pub open spec fn ref_views(rs: Seq<FqnReference>) -> Seq<RefSpec> {
    rs.map_values(|r: FqnReference| r@)
}

/// `s` without its leading bytes `b`.
pub open spec fn trim_leading(s: Seq<u8>, b: u8) -> Seq<u8>
    decreases s.len(),
{
    if s.len() > 0 && s[0] == b {
        trim_leading(s.skip(1), b)
    } else {
        s
    }
}

/// The global name that an identifier refers to, if it is fully qualified
/// and in the global namespace (no backslash once the leading ones are gone).
pub open spec fn fq_ref(id: Identifier, kind: NameKind) -> Option<RefSpec> {
    match id {
        Identifier::FullyQualified { value, span } => {
            let v = trim_leading(value@, 0x5Cu8);
            if has_byte(v, 0x5Cu8) {
                None
            } else {
                Some(RefSpec { name: v, span, kind })
            }
        },
        _ => None,
    }
}

/// The global name that a bare-name expression refers to.
pub open spec fn expr_ref(e: Expression, kind: NameKind) -> Option<RefSpec> {
    match e.kind {
        ExprKind::Identifier(id) => fq_ref(id, kind),
        _ => None,
    }
}

/// The global name that a naming node refers to: calls name functions;
/// instantiations, static accesses, hints and the right side of
/// `instanceof` name classes; constant accesses name constants.
pub open spec fn site_ref(site: NameSite) -> Option<RefSpec> {
    match site {
        NameSite::FunctionCall { function } => expr_ref(function, NameKind::Function),
        NameSite::Instantiation { class } => expr_ref(class, NameKind::Class),
        NameSite::StaticMethodCall { class } => expr_ref(class, NameKind::Class),
        NameSite::StaticPropertyAccess { class } => expr_ref(class, NameKind::Class),
        NameSite::ClassConstantAccess { class } => expr_ref(class, NameKind::Class),
        NameSite::Hint(h) => match h {
            Hint::Identifier(id) => fq_ref(id, NameKind::Class),
            Hint::Other => None,
        },
        NameSite::Binary { operator, rhs } => if operator is Instanceof {
            expr_ref(rhs, NameKind::Class)
        } else {
            None
        },
        NameSite::ConstantAccess { name } => fq_ref(name, NameKind::Constant),
    }
}

/// `rs` with `o` appended when it is something.
pub open spec fn push_opt(rs: Seq<RefSpec>, o: Option<RefSpec>) -> Seq<RefSpec> {
    match o {
        Some(r) => rs.push(r),
        None => rs,
    }
}

/// The global names of the naming nodes, in walk order.
pub open spec fn collected(sites: Seq<NameSite>) -> Seq<RefSpec>
    decreases sites.len(),
{
    if sites.len() == 0 {
        Seq::empty()
    } else {
        push_opt(collected(sites.drop_last()), site_ref(sites.last()))
    }
}

/// The names of a `use` statement as written.
pub open spec fn item_names(items: UseItems) -> Seq<Vec<u8>> {
    match items {
        UseItems::Sequence { names } => names@,
        UseItems::TypedSequence { names } => names@,
        UseItems::MixedList { names } => names@,
        UseItems::TypedList { names } => names@,
    }
}

/// The short name that an import makes available: the last segment.
pub open spec fn imported_name(n: Seq<u8>) -> Seq<u8> {
    last_segment(trim_leading(n, 0x5Cu8))
}

/// The short names that a list of imports makes available.
pub open spec fn names_imported(ns: Seq<Vec<u8>>) -> Seq<Seq<u8>> {
    ns.map_values(|n: Vec<u8>| imported_name(n@))
}

/// The `use` statements among the members of a namespace.
pub open spec fn member_uses(ms: Seq<NamespaceMember>) -> Seq<UseStatement>
    decreases ms.len(),
{
    if ms.len() == 0 {
        Seq::empty()
    } else {
        let prev = member_uses(ms.drop_last());
        match ms.last() {
            NamespaceMember::Use(u) => prev.push(u),
            NamespaceMember::Other => prev,
        }
    }
}

/// The `use` statements of the file, top-level ones and those directly in a
/// namespace, in order.
pub open spec fn all_uses(stmts: Seq<TopStatement>) -> Seq<UseStatement>
    decreases stmts.len(),
{
    if stmts.len() == 0 {
        Seq::empty()
    } else {
        let prev = all_uses(stmts.drop_last());
        match stmts.last() {
            TopStatement::Namespace { statements, .. } => prev + member_uses(statements@),
            TopStatement::Use(u) => prev.push(u),
            TopStatement::Other => prev,
        }
    }
}

/// The short names imported by the `use` statements.
pub open spec fn all_imported(uses: Seq<UseStatement>) -> Seq<Seq<u8>>
    decreases uses.len(),
{
    if uses.len() == 0 {
        Seq::empty()
    } else {
        all_imported(uses.drop_last()) + names_imported(item_names(uses.last().items))
    }
}

/// The file declares a namespace.
pub open spec fn declares_namespace(stmts: Seq<TopStatement>) -> bool {
    exists|i: int| 0 <= i < stmts.len() && stmts[i] is Namespace
}

/// The end of the name of the last namespace that has a name.
pub open spec fn last_namespace_end(stmts: Seq<TopStatement>) -> Option<u32>
    decreases stmts.len(),
{
    if stmts.len() == 0 {
        None
    } else {
        match stmts.last() {
            TopStatement::Namespace { name_end: Some(e), .. } => Some(e),
            _ => last_namespace_end(stmts.drop_last()),
        }
    }
}

/// Where new imports go: after the last `use` statement, else after the
/// namespace name.
pub open spec fn insertion_offset(stmts: Seq<TopStatement>) -> Option<u32> {
    let uses = all_uses(stmts);
    if uses.len() > 0 {
        Some(uses.last().span.end)
    } else {
        last_namespace_end(stmts)
    }
}

/// The offset lies within a `use` statement.
pub open spec fn in_use_range(uses: Seq<UseStatement>, off: u32) -> bool {
    exists|i: int| 0 <= i < uses.len() && uses[i].span.start <= off && off < uses[i].span.end
}

/// The settings ask for names of this kind to be imported.
pub open spec fn kind_enabled(cfg: GlobalNamespaceImportConfig, k: NameKind) -> bool {
    match k {
        NameKind::Class => cfg.import_classes,
        NameKind::Function => cfg.import_functions,
        NameKind::Constant => cfg.import_constants,
    }
}

/// The reference is reported: its kind is enabled, it is not inside a `use`
/// statement, and its name is not imported already.
pub open spec fn reported_ref(cfg: GlobalNamespaceImportConfig, uses: Seq<UseStatement>, r: RefSpec) -> bool {
    kind_enabled(cfg, r.kind) && !in_use_range(uses, r.span.start) && !all_imported(
        uses,
    ).contains(r.name)
}

/// The reported references, in walk order.
pub open spec fn reported_refs(
    cfg: GlobalNamespaceImportConfig,
    uses: Seq<UseStatement>,
    rs: Seq<RefSpec>,
) -> Seq<RefSpec>
    decreases rs.len(),
{
    if rs.len() == 0 {
        Seq::empty()
    } else {
        let prev = reported_refs(cfg, uses, rs.drop_last());
        if reported_ref(cfg, uses, rs.last()) {
            prev.push(rs.last())
        } else {
            prev
        }
    }
}

/// `a` comes before `b` in byte-wise lexicographic order.
pub open spec fn lex_lt(a: Seq<u8>, b: Seq<u8>) -> bool
    decreases a.len(),
{
    if a.len() == 0 {
        b.len() > 0
    } else if b.len() == 0 {
        false
    } else if a[0] != b[0] {
        a[0] < b[0]
    } else {
        lex_lt(a.skip(1), b.skip(1))
    }
}

/// `a` comes before `b` or equals it.
pub open spec fn lex_le(a: Seq<u8>, b: Seq<u8>) -> bool {
    a == b || lex_lt(a, b)
}

/// `x` inserted into `s` after every element whose name is not after its own.
pub open spec fn insert_sorted(s: Seq<RefSpec>, x: RefSpec) -> Seq<RefSpec>
    decreases s.len(),
{
    if s.len() == 0 {
        seq![x]
    } else if lex_le(s.last().name, x.name) {
        s.push(x)
    } else {
        insert_sorted(s.drop_last(), x).push(s.last())
    }
}

/// The references sorted by name; references of equal name keep their order
/// (the order in which a map from names to their occurrences yields them).
pub open spec fn sort_by_name(rs: Seq<RefSpec>) -> Seq<RefSpec>
    decreases rs.len(),
{
    if rs.len() == 0 {
        Seq::empty()
    } else {
        insert_sorted(sort_by_name(rs.drop_last()), rs.last())
    }
}

/// The issue for one occurrence of a global name; with a fix when there is a
/// place to insert the `use` statement.
pub open spec fn fqn_issue(level: Level, r: RefSpec, insert: Option<u32>) -> IssueSpec {
    let n = r.name;
    IssueSpec {
        level,
        code: utf8("global-namespace-import"),
        message: utf8("Fully-qualified name `\\") + n + utf8("` should be imported"),
        annotations: seq![
            AnnotationSpec {
                span: r.span,
                message: utf8("Use `") + n + utf8("` instead of `\\") + n + utf8("`"),
                primary: true,
            },
        ],
        notes: Seq::empty(),
        help: Some(
            utf8("Add `use ") + n + utf8(";` and replace `\\") + n + utf8("` with `") + n + utf8(
                "`",
            ),
        ),
        edits: match insert {
            Some(off) => Some(
                seq![
                    EditSpec { start: r.span.start, end: r.span.end, text: n },
                    EditSpec { start: off, end: off, text: utf8("\nuse ") + n + utf8(";") },
                ],
            ),
            None => None,
        },
    }
}

/// The issues of a file: none when no kind is enabled or the file has no
/// namespace; else one per reported occurrence, sorted by name.
pub open spec fn import_issues(cfg: GlobalNamespaceImportConfig, p: Program) -> Seq<IssueSpec> {
    let stmts = p.statements@;
    if !(cfg.import_classes || cfg.import_functions || cfg.import_constants) || !declares_namespace(
        stmts,
    ) {
        Seq::empty()
    } else {
        let uses = all_uses(stmts);
        let sorted = sort_by_name(reported_refs(cfg, uses, collected(p.sites@)));
        sorted.map_values(|r: RefSpec| fqn_issue(cfg.level, r, insertion_offset(stmts)))
    }
}

/// Index of the first byte of `s` that is not a backslash.
fn leading_backslashes(s: &[u8]) -> (r: usize)
    ensures
        r <= s@.len(),
        s@.skip(r as int) == trim_leading(s@, 0x5Cu8),
{
    let mut i: usize = 0;
    assert(s@.skip(0) =~= s@);
    while i < s.len() && s[i] == 0x5C
        invariant
            i <= s@.len(),
            trim_leading(s@.skip(i as int), 0x5Cu8) == trim_leading(s@, 0x5Cu8),
        decreases s@.len() - i,
    {
        assert(s@.skip(i as int).skip(1) =~= s@.skip(i + 1));
        i = i + 1;
    }
    i
}

/// `s` without its leading backslashes.
pub fn trim_leading_backslashes(s: &[u8]) -> (r: Vec<u8>)
    ensures
        r@ == trim_leading(s@, 0x5Cu8),
{
    let i = leading_backslashes(s);
    let r = copy_range(s, i, s.len());
    assert(r@ =~= s@.skip(i as int));
    r
}

/// Collects the fully-qualified global names of the naming nodes.
#[derive(Debug)]
pub struct FqnCollector {
    pub refs: Vec<FqnReference>,
}

impl FqnCollector {
    /// A collector with nothing collected.
    pub fn new() -> (r: Self)
        ensures
            r.refs@.len() == 0,
    {
        Self { refs: Vec::new() }
    }

    /// Appends the reference `o` when it is something.
    fn push_ref(&mut self, r: FqnReference)
        ensures
            ref_views(final(self).refs@) == ref_views(old(self).refs@).push(r@),
    {
        let ghost r0 = self.refs@;
        self.refs.push(r);
        assert(ref_views(self.refs@) =~= ref_views(r0).push(r@));
    }

    /// Collects the identifier when it is a fully-qualified global name.
    pub fn add_from_identifier(&mut self, id: &Identifier, kind: NameKind)
        ensures
            ref_views(final(self).refs@) == push_opt(ref_views(old(self).refs@), fq_ref(*id, kind)),
    {
        if let Identifier::FullyQualified { value, span } = id {
            let value = trim_leading_backslashes(value.as_slice());
            if !has_byte_in(value.as_slice(), 0x5C) {
                self.push_ref(FqnReference { name: value, span: *span, kind });
            }
        }
    }

    /// Collects the expression when it is a fully-qualified global name.
    pub fn add_from_expression(&mut self, expr: &Expression, kind: NameKind)
        ensures
            ref_views(final(self).refs@) == push_opt(ref_views(old(self).refs@), expr_ref(*expr, kind)),
    {
        if let ExprKind::Identifier(id) = &expr.kind {
            self.add_from_identifier(id, kind);
        }
    }

    /// A call: `\strlen(..)` names a function.
    pub fn walk_in_function_call(&mut self, function: &Expression)
        ensures
            ref_views(final(self).refs@) == push_opt(
                ref_views(old(self).refs@),
                expr_ref(*function, NameKind::Function),
            ),
    {
        self.add_from_expression(function, NameKind::Function);
    }

    /// `new \DateTime()` names a class.
    pub fn walk_in_instantiation(&mut self, class: &Expression)
        ensures
            ref_views(final(self).refs@) == push_opt(
                ref_views(old(self).refs@),
                expr_ref(*class, NameKind::Class),
            ),
    {
        self.add_from_expression(class, NameKind::Class);
    }

    /// `\DateTime::createFromFormat()` names a class.
    pub fn walk_in_static_method_call(&mut self, class: &Expression)
        ensures
            ref_views(final(self).refs@) == push_opt(
                ref_views(old(self).refs@),
                expr_ref(*class, NameKind::Class),
            ),
    {
        self.add_from_expression(class, NameKind::Class);
    }

    /// `\SomeClass::$prop` names a class.
    pub fn walk_in_static_property_access(&mut self, class: &Expression)
        ensures
            ref_views(final(self).refs@) == push_opt(
                ref_views(old(self).refs@),
                expr_ref(*class, NameKind::Class),
            ),
    {
        self.add_from_expression(class, NameKind::Class);
    }

    /// `\SomeClass::CONST` names a class.
    pub fn walk_in_class_constant_access(&mut self, class: &Expression)
        ensures
            ref_views(final(self).refs@) == push_opt(
                ref_views(old(self).refs@),
                expr_ref(*class, NameKind::Class),
            ),
    {
        self.add_from_expression(class, NameKind::Class);
    }

    /// A type hint names a class.
    pub fn walk_in_hint(&mut self, hint: &Hint)
        ensures
            ref_views(final(self).refs@) == push_opt(
                ref_views(old(self).refs@),
                site_ref(NameSite::Hint(*hint)),
            ),
    {
        if let Hint::Identifier(id) = hint {
            self.add_from_identifier(id, NameKind::Class);
        }
    }

    /// The right side of `instanceof` names a class.
    pub fn walk_in_binary(&mut self, operator: BinaryOperator, rhs: &Expression)
        ensures
            ref_views(final(self).refs@) == push_opt(
                ref_views(old(self).refs@),
                site_ref(NameSite::Binary { operator, rhs: *rhs }),
            ),
    {
        if operator == BinaryOperator::Instanceof {
            self.add_from_expression(rhs, NameKind::Class);
        }
    }

    /// `\PHP_EOL` names a constant.
    pub fn walk_in_constant_access(&mut self, name: &Identifier)
        ensures
            ref_views(final(self).refs@) == push_opt(
                ref_views(old(self).refs@),
                fq_ref(*name, NameKind::Constant),
            ),
    {
        self.add_from_identifier(name, NameKind::Constant);
    }

    /// Visits one naming node.
    pub fn visit(&mut self, site: &NameSite)
        ensures
            ref_views(final(self).refs@) == push_opt(ref_views(old(self).refs@), site_ref(*site)),
    {
        match site {
            NameSite::FunctionCall { function } => self.walk_in_function_call(function),
            NameSite::Instantiation { class } => self.walk_in_instantiation(class),
            NameSite::StaticMethodCall { class } => self.walk_in_static_method_call(class),
            NameSite::StaticPropertyAccess { class } => self.walk_in_static_property_access(class),
            NameSite::ClassConstantAccess { class } => self.walk_in_class_constant_access(class),
            NameSite::Hint(h) => self.walk_in_hint(h),
            NameSite::Binary { operator, rhs } => self.walk_in_binary(*operator, rhs),
            NameSite::ConstantAccess { name } => self.walk_in_constant_access(name),
        }
    }

    /// Visits the naming nodes in order.
    pub fn collect(sites: &Vec<NameSite>) -> (r: Self)
        ensures
            ref_views(r.refs@) == collected(sites@),
    {
        let mut c = Self::new();
        assert(ref_views(c.refs@) =~= Seq::<RefSpec>::empty());
        let mut i: usize = 0;
        while i < sites.len()
            invariant
                i <= sites@.len(),
                ref_views(c.refs@) == collected(sites@.take(i as int)),
            decreases sites@.len() - i,
        {
            assert(sites@.take(i + 1).drop_last() =~= sites@.take(i as int));
            c.visit(&sites[i]);
            i = i + 1;
        }
        assert(sites@.take(i as int) =~= sites@);
        c
    }
}

/// The short name that an import makes available.
fn imported_short_name(name: &Vec<u8>) -> (r: Vec<u8>)
    ensures
        r@ == imported_name(name@),
{
    let trimmed = trim_leading_backslashes(name.as_slice());
    let t = trimmed.as_slice();
    let mut k: usize = t.len();
    assert(t@.take(k as int) =~= t@);
    assert(t@.skip(k as int) =~= Seq::<u8>::empty());
    assert(after_last(t@, 0x5Cu8) + Seq::<u8>::empty() =~= after_last(t@, 0x5Cu8));
    while k > 0 && t[k - 1] != 0x5C
        invariant
            k <= t@.len(),
            after_last(t@, 0x5Cu8) == after_last(t@.take(k as int), 0x5Cu8) + t@.skip(k as int),
        decreases k,
    {
        let ghost w = t@.take(k as int);
        assert(w.drop_last() =~= t@.take(k - 1));
        assert(t@.skip(k - 1) =~= seq![t@[k - 1]] + t@.skip(k as int));
        assert(after_last(t@.take(k - 1), 0x5Cu8).push(t@[k - 1]) + t@.skip(k as int)
            =~= after_last(t@.take(k - 1), 0x5Cu8) + t@.skip(k - 1));
        k = k - 1;
    }
    proof {
        if k == 0 {
            assert(t@.take(0) =~= Seq::<u8>::empty());
        } else {
            assert(t@.take(k as int).last() == 0x5Cu8);
        }
        assert(after_last(t@.take(k as int), 0x5Cu8) =~= Seq::<u8>::empty());
        assert(Seq::<u8>::empty() + t@.skip(k as int) =~= t@.skip(k as int));
    }
    let r = copy_range(t, k, t.len());
    assert(r@ =~= t@.skip(k as int));
    r
}

/// `a` and `b` hold the same names.
pub open spec fn same_names(a: Seq<Seq<u8>>, b: Seq<Seq<u8>>) -> bool {
    forall|x: Seq<u8>| #![trigger a.contains(x)] #![trigger b.contains(x)] a.contains(x) <==> b.contains(x)
}

/// A name is among `a + b` when it is among `a` or among `b`.
proof fn lemma_names_concat(a: Seq<Seq<u8>>, b: Seq<Seq<u8>>)
    ensures
        forall|x: Seq<u8>| #[trigger] (a + b).contains(x) <==> a.contains(x) || b.contains(x),
{
    assert forall|x: Seq<u8>| #[trigger] (a + b).contains(x) implies a.contains(x) || b.contains(
        x,
    ) by {
        let k = choose|k: int| 0 <= k < (a + b).len() && (a + b)[k] == x;
        if k < a.len() {
            assert(a[k] == x);
        } else {
            assert(b[k - a.len()] == x);
        }
    }
    assert forall|x: Seq<u8>| a.contains(x) || b.contains(x) implies #[trigger] (a + b).contains(
        x,
    ) by {
        if a.contains(x) {
            let k = choose|k: int| 0 <= k < a.len() && a[k] == x;
            assert((a + b)[k] == x);
        } else {
            let k = choose|k: int| 0 <= k < b.len() && b[k] == x;
            assert((a + b)[a.len() + k] == x);
        }
    }
}

/// Adds to `imported`, a list that holds each name once and is used as a
/// set, the short names that a `use` statement imports and that it does not
/// hold yet, keeping what it held before in front.
pub fn collect_imported_names(use_stmt: &UseStatement, imported: &mut Vec<Vec<u8>>)
    requires
        views(old(imported)@).no_duplicates(),
    ensures
        views(final(imported)@).no_duplicates(),
        forall|x: Seq<u8>|
            #[trigger] views(final(imported)@).contains(x) <==> views(old(imported)@).contains(x)
                || names_imported(item_names(use_stmt.items)).contains(x),
        views(old(imported)@).len() <= views(final(imported)@).len(),
        views(final(imported)@).take(views(old(imported)@).len() as int) == views(old(imported)@),
{
    let names = match &use_stmt.items {
        UseItems::Sequence { names } => names,
        UseItems::TypedSequence { names } => names,
        UseItems::MixedList { names } => names,
        UseItems::TypedList { names } => names,
    };
    let ghost start = views(imported@);
    let mut i: usize = 0;
    assert(views(imported@).take(start.len() as int) =~= start);
    while i < names.len()
        invariant
            i <= names@.len(),
            names@ == item_names(use_stmt.items),
            views(imported@).no_duplicates(),
            forall|x: Seq<u8>|
                #[trigger] views(imported@).contains(x) <==> start.contains(x) || names_imported(
                    names@.take(i as int),
                ).contains(x),
            start.len() <= views(imported@).len(),
            views(imported@).take(start.len() as int) == start,
        decreases names@.len() - i,
    {
        let short = imported_short_name(&names[i]);
        let ghost before = views(imported@);
        let ghost s = short@;
        let ghost done = names_imported(names@.take(i as int));
        assert(names_imported(names@.take(i + 1)) =~= done + seq![s]);
        proof {
            lemma_names_concat(done, seq![s]);
        }
        if !contains_bytes_in(imported, short.as_slice()) {
            let ghost i0 = imported@;
            imported.push(short);
            proof {
                crate::text::lemma_views_push(i0, imported@.last());
                assert(views(imported@) =~= before + seq![s]);
                lemma_names_concat(before, seq![s]);
                assert(views(imported@).take(start.len() as int) =~= before.take(
                    start.len() as int,
                ));
                assert forall|p: int, q: int|
                    0 <= p < views(imported@).len() && 0 <= q < views(imported@).len() && p
                        != q implies views(imported@)[p] != views(imported@)[q] by {
                    if p == before.len() {
                        assert(views(imported@)[q] == before[q]);
                    } else if q == before.len() {
                        assert(views(imported@)[p] == before[p]);
                    }
                }
            }
        }
        i = i + 1;
    }
    assert(names@.take(i as int) =~= names@);
}

/// Whether `name` is one of `set`.
fn contains_bytes_in(set: &Vec<Vec<u8>>, name: &[u8]) -> (r: bool)
    ensures
        r == views(set@).contains(name@),
{
    let mut i: usize = 0;
    while i < set.len()
        invariant
            i <= set@.len(),
            forall|k: int| 0 <= k < i ==> set@[k]@ != name@,
        decreases set@.len() - i,
    {
        if bytes_eq(set[i].as_slice(), name) {
            assert(views(set@)[i as int] == name@);
            return true;
        }
        i = i + 1;
    }
    assert(!views(set@).contains(name@)) by {
        if views(set@).contains(name@) {
            let k = choose|k: int| 0 <= k < views(set@).len() && views(set@)[k] == name@;
            assert(set@[k]@ == views(set@)[k]);
        }
    }
    false
}

/// Whether `a` comes before `b` or equals it, byte-wise.
pub fn lex_le_bytes(a: &[u8], b: &[u8]) -> (r: bool)
    ensures
        r == lex_le(a@, b@),
{
    let mut i: usize = 0;
    assert(a@.skip(0) =~= a@);
    assert(b@.skip(0) =~= b@);
    while i < a.len() && i < b.len() && a[i] == b[i]
        invariant
            i <= a@.len(),
            i <= b@.len(),
            a@.take(i as int) == b@.take(i as int),
            lex_lt(a@, b@) == lex_lt(a@.skip(i as int), b@.skip(i as int)),
        decreases a@.len() - i,
    {
        proof {
            lemma_lex_lt_step(a@.skip(i as int), b@.skip(i as int));
            assert(a@.skip(i as int).skip(1) =~= a@.skip(i + 1));
            assert(b@.skip(i as int).skip(1) =~= b@.skip(i + 1));
            assert(a@.take(i + 1) =~= a@.take(i as int).push(a@[i as int]));
            assert(b@.take(i + 1) =~= b@.take(i as int).push(b@[i as int]));
        }
        i = i + 1;
    }
    if i == a.len() && i == b.len() {
        assert(a@ =~= a@.take(i as int));
        assert(b@ =~= b@.take(i as int));
        return true;
    }
    if i == a.len() {
        assert(a@.skip(i as int).len() == 0);
        assert(a@ != b@);
        return true;
    }
    if i == b.len() {
        assert(b@.skip(i as int).len() == 0);
        assert(a@ != b@) by {
            assert(a@.len() != b@.len());
        }
        return false;
    }
    assert(a@.skip(i as int)[0] == a@[i as int]);
    assert(b@.skip(i as int)[0] == b@[i as int]);
    assert(a@ != b@) by {
        assert(a@[i as int] != b@[i as int]);
    }
    a[i] < b[i]
}

/// One step of the lexicographic comparison.
proof fn lemma_lex_lt_step(a: Seq<u8>, b: Seq<u8>)
    requires
        a.len() > 0,
        b.len() > 0,
        a[0] == b[0],
    ensures
        lex_lt(a, b) == lex_lt(a.skip(1), b.skip(1)),
{
}

/// Inserting after a position where the names stop coming after `x`.
proof fn lemma_insert_sorted_at(s: Seq<RefSpec>, x: RefSpec, j: int)
    requires
        0 <= j <= s.len(),
        j == 0 || lex_le(s[j - 1].name, x.name),
        forall|k: int| j <= k < s.len() ==> !lex_le(#[trigger] s[k].name, x.name),
    ensures
        insert_sorted(s, x) == s.take(j).push(x) + s.skip(j),
    decreases s.len(),
{
    if s.len() == j {
        assert(s.skip(j) =~= Seq::<RefSpec>::empty());
        assert(s.take(j) =~= s);
        if j == 0 {
            assert(s.take(j).push(x) =~= seq![x]);
        }
        assert(s.take(j).push(x) + s.skip(j) =~= s.push(x));
    } else {
        assert(!lex_le(s.last().name, x.name));
        lemma_insert_sorted_at(s.drop_last(), x, j);
        assert(s.drop_last().take(j) =~= s.take(j));
        assert(s.drop_last().skip(j).push(s.last()) =~= s.skip(j));
        assert(s.take(j).push(x) + s.drop_last().skip(j) + seq![s.last()] =~= s.take(j).push(x)
            + s.skip(j));
        assert(insert_sorted(s.drop_last(), x).push(s.last()) =~= insert_sorted(s.drop_last(), x)
            + seq![s.last()]);
    }
}

/// No name comes before itself.
pub proof fn lemma_lex_lt_irreflexive(a: Seq<u8>)
    ensures
        !lex_lt(a, a),
    decreases a.len(),
{
    if a.len() > 0 {
        lemma_lex_lt_irreflexive(a.skip(1));
    }
}

/// Coming before is transitive.
pub proof fn lemma_lex_lt_transitive(a: Seq<u8>, b: Seq<u8>, c: Seq<u8>)
    requires
        lex_lt(a, b),
        lex_lt(b, c),
    ensures
        lex_lt(a, c),
    decreases a.len(),
{
    if a.len() > 0 && b.len() > 0 && c.len() > 0 && a[0] == b[0] && b[0] == c[0] {
        lemma_lex_lt_transitive(a.skip(1), b.skip(1), c.skip(1));
    }
}

/// Of two different names, one comes before the other.
#[verifier::spinoff_prover]
pub proof fn lemma_lex_lt_total(a: Seq<u8>, b: Seq<u8>)
    ensures
        a == b || lex_lt(a, b) || lex_lt(b, a),
    decreases a.len(),
{
    if a.len() > 0 && b.len() > 0 && a[0] == b[0] {
        let (x, y) = (a.skip(1), b.skip(1));
        lemma_lex_lt_total(x, y);
        if x == y {
            assert(a.len() == b.len());
            assert forall|i: int| 0 <= i < a.len() implies a[i] == b[i] by {
                if i > 0 {
                    assert(a[i] == x[i - 1]);
                    assert(b[i] == y[i - 1]);
                }
            }
            assert(a =~= b);
        }
    } else if a.len() == 0 && b.len() == 0 {
        assert(a =~= b);
    }
}

/// `lex_le` is transitive, and a name that does not come before or equal
/// another comes after it.
pub proof fn lemma_lex_le_order(a: Seq<u8>, b: Seq<u8>, c: Seq<u8>)
    ensures
        lex_le(a, b) && lex_le(b, c) ==> lex_le(a, c),
        !lex_le(a, b) ==> lex_lt(b, a),
{
    if lex_lt(a, b) && lex_lt(b, c) {
        lemma_lex_lt_transitive(a, b, c);
    }
    lemma_lex_lt_total(a, b);
}

/// The references are in order of their names.
pub open spec fn sorted_by_name(s: Seq<RefSpec>) -> bool {
    forall|i: int, j: int| 0 <= i < j < s.len() ==> lex_le(#[trigger] s[i].name, #[trigger] s[j].name)
}

/// Inserting keeps every reference and adds one.
pub proof fn lemma_insert_sorted_multiset(s: Seq<RefSpec>, x: RefSpec)
    ensures
        insert_sorted(s, x).to_multiset() == s.to_multiset().insert(x),
        insert_sorted(s, x).len() == s.len() + 1,
    decreases s.len(),
{
    broadcast use vstd::seq_lib::group_to_multiset_ensures;

    if s.len() == 0 {
        assert(seq![x] =~= s.push(x));
    } else if lex_le(s.last().name, x.name) {
    } else {
        lemma_insert_sorted_multiset(s.drop_last(), x);
        assert(s.drop_last().push(s.last()) =~= s);
        assert(insert_sorted(s, x).to_multiset() =~= s.to_multiset().insert(x));
    }
}

/// Inserting into references in order of their names keeps them in order.
pub proof fn lemma_insert_sorted_sorted(s: Seq<RefSpec>, x: RefSpec)
    requires
        sorted_by_name(s),
    ensures
        sorted_by_name(insert_sorted(s, x)),
    decreases s.len(),
{
    broadcast use vstd::seq_lib::group_to_multiset_ensures;

    if s.len() == 0 {
    } else if lex_le(s.last().name, x.name) {
        let r = s.push(x);
        assert forall|i: int, j: int| 0 <= i < j < r.len() implies lex_le(
            #[trigger] r[i].name,
            #[trigger] r[j].name,
        ) by {
            if j == r.len() - 1 {
                if i < s.len() - 1 {
                    lemma_lex_le_order(s[i].name, s.last().name, x.name);
                }
            }
        }
    } else {
        let d = s.drop_last();
        let last = s.last();
        lemma_insert_sorted_sorted(d, x);
        lemma_insert_sorted_multiset(d, x);
        lemma_lex_le_order(last.name, x.name, x.name);
        let t = insert_sorted(d, x);
        let r = t.push(last);
        assert forall|i: int, j: int| 0 <= i < j < r.len() implies lex_le(
            #[trigger] r[i].name,
            #[trigger] r[j].name,
        ) by {
            if j == r.len() - 1 {
                let y = t[i];
                assert(t.to_multiset().count(y) > 0) by {
                    assert(t.contains(y));
                }
                if y == x {
                } else {
                    assert(d.to_multiset().count(y) > 0);
                    let k = choose|k: int| 0 <= k < d.len() && d[k] == y;
                    assert(s[k] == y);
                    assert(lex_le(s[k].name, s[s.len() - 1].name));
                }
            } else {
                assert(r[i] == t[i]);
                assert(r[j] == t[j]);
            }
        }
    }
}

/// Sorting by name keeps every reference once and puts them in order of
/// their names.
pub proof fn lemma_sort_by_name(rs: Seq<RefSpec>)
    ensures
        sorted_by_name(sort_by_name(rs)),
        sort_by_name(rs).to_multiset() == rs.to_multiset(),
        sort_by_name(rs).len() == rs.len(),
    decreases rs.len(),
{
    broadcast use vstd::seq_lib::group_to_multiset_ensures;

    if rs.len() > 0 {
        lemma_sort_by_name(rs.drop_last());
        lemma_insert_sorted_sorted(sort_by_name(rs.drop_last()), rs.last());
        lemma_insert_sorted_multiset(sort_by_name(rs.drop_last()), rs.last());
        assert(rs.drop_last().push(rs.last()) =~= rs);
    } else {
        assert(rs.to_multiset() =~= vstd::multiset::Multiset::<RefSpec>::empty()) by {
            assert(rs =~= Seq::<RefSpec>::empty());
        }
        assert(sort_by_name(rs).to_multiset() =~= vstd::multiset::Multiset::<RefSpec>::empty()) by {
            assert(sort_by_name(rs) =~= Seq::<RefSpec>::empty());
        }
    }
}

/// A copy of a reference.
fn copy_ref(r: &FqnReference) -> (c: FqnReference)
    ensures
        c@ == r@,
{
    let name = copy_range(r.name.as_slice(), 0, r.name.len());
    assert(name@ =~= r.name@);
    FqnReference { name, span: r.span, kind: r.kind }
}

impl GlobalNamespaceImportRule {
    /// What the rule says about itself: its name, code, description,
    /// examples and category.
    pub open spec fn rule_meta() -> RuleMeta {
        RuleMeta {
            name: "Global Namespace Import",
            code: "global-namespace-import",
            description: "Detects fully-qualified global namespace references (e.g. `\\DateTime`) in namespaced files\nand suggests importing them with `use` statements instead. This improves readability and\nconsistency with the rest of the codebase.\n",
            good_example: "<?php\n\nnamespace App;\n\nuse DateTime;\n\n$d = new DateTime();\n",
            bad_example: "<?php\n\nnamespace App;\n\n$d = new \\DateTime();\n",
            category: Category::Consistency,
        }
    }

    /// What the rule says about itself.
    pub fn meta() -> (r: RuleMeta)
        ensures
            r == Self::rule_meta(),
    {
        RuleMeta {
            name: "Global Namespace Import",
            code: "global-namespace-import",
            description: "Detects fully-qualified global namespace references (e.g. `\\DateTime`) in namespaced files\nand suggests importing them with `use` statements instead. This improves readability and\nconsistency with the rest of the codebase.\n",
            good_example: "<?php\n\nnamespace App;\n\nuse DateTime;\n\n$d = new DateTime();\n",
            bad_example: "<?php\n\nnamespace App;\n\n$d = new \\DateTime();\n",
            category: Category::Consistency,
        }
    }

    /// The rule with the given settings.
    pub fn build(cfg: GlobalNamespaceImportConfig) -> (r: Self)
        ensures
            r.cfg == cfg,
            r.meta == Self::rule_meta(),
    {
        Self { meta: Self::meta(), cfg }
    }

    /// The kinds of node the rule is run on.
    pub fn targets() -> (r: Vec<NodeKind>)
        ensures
            r@ == seq![NodeKind::Program],
    {
        let mut v: Vec<NodeKind> = Vec::new();
        v.push(NodeKind::Program);
        v
    }

    /// The issue for one occurrence of a global name.
    fn fqn_issue_for(&self, r: &FqnReference, insert: Option<u32>) -> (i: Issue)
        ensures
            i@ == fqn_issue(self.cfg.level, r@, insert),
    {
        let n = r.name.as_slice();
        let mut message = bytes_of("Fully-qualified name `\\");
        push_all(&mut message, n);
        push_all(&mut message, "` should be imported".as_bytes());
        let mut note = bytes_of("Use `");
        push_all(&mut note, n);
        push_all(&mut note, "` instead of `\\".as_bytes());
        push_all(&mut note, n);
        push_all(&mut note, "`".as_bytes());
        let mut help = bytes_of("Add `use ");
        push_all(&mut help, n);
        push_all(&mut help, ";` and replace `\\".as_bytes());
        push_all(&mut help, n);
        push_all(&mut help, "` with `".as_bytes());
        push_all(&mut help, n);
        push_all(&mut help, "`".as_bytes());
        let issue = Issue::new(self.cfg.level(), message).with_code(bytes_of(Self::meta().code))
            .with_annotation(Annotation::primary(r.span, note)).with_help(help);
        let ghost want = fqn_issue(self.cfg.level, r@, insert);
        assert(issue@.message =~= want.message);
        assert(issue@.annotations =~= want.annotations);
        assert(issue@.help->0 =~= want.help->0);
        match insert {
            Some(insert_offset) => {
                let mut edits: Vec<TextEdit> = Vec::new();
                let short = copy_range(n, 0, n.len());
                assert(short@ =~= n@);
                edits.push(TextEdit::replace(r.span, short));
                let mut use_statement = bytes_of("\nuse ");
                push_all(&mut use_statement, n);
                push_all(&mut use_statement, ";".as_bytes());
                edits.push(
                    TextEdit::replace(Span { start: insert_offset, end: insert_offset }, use_statement),
                );
                assert(use_statement@ =~= utf8("\nuse ") + n@ + utf8(";"));
                assert(edit_views(edits@) =~= want.edits->0);
                let i = issue.with_edits(edits);
                i
            },
            None => issue,
        }
    }

    /// The issues of a file: each fully-qualified global name of an enabled
    /// kind that is not inside a `use` statement and not imported already,
    /// in a file with a namespace; sorted by name, occurrences of a name in
    /// walk order. The fix imports the name after the last `use` statement
    /// (else after the namespace name) and writes it unqualified.
    pub fn check(&self, program: &Program) -> (r: Vec<Issue>)
        ensures
            issue_views(r@) == import_issues(self.cfg, *program),
    {
        let mut issues: Vec<Issue> = Vec::new();
        if !self.cfg.import_classes && !self.cfg.import_functions && !self.cfg.import_constants {
            assert(issue_views(issues@) =~= Seq::<IssueSpec>::empty());
            return issues;
        }
        let stmts = &program.statements;
        let ghost sv = stmts@;
        let mut has_namespace = false;
        let mut use_ranges: Vec<Span> = Vec::new();
        let mut namespace_end: Option<u32> = None;
        let mut already_imported: Vec<Vec<u8>> = Vec::new();
        let mut i: usize = 0;
        while i < stmts.len()
            invariant
                i <= sv.len(),
                sv == stmts@,
                has_namespace == declares_namespace(sv.take(i as int)),
                use_ranges@ == all_uses(sv.take(i as int)).map_values(|u: UseStatement| u.span),
                namespace_end == last_namespace_end(sv.take(i as int)),
                views(already_imported@).no_duplicates(),
                same_names(views(already_imported@), all_imported(all_uses(sv.take(i as int)))),
            decreases sv.len() - i,
        {
            let ghost pre = sv.take(i as int);
            assert(sv.take(i + 1).drop_last() =~= pre);
            assert(sv.take(i + 1).last() == sv[i as int]);
            let ghost uses0 = all_uses(pre);
            match &stmts[i] {
                TopStatement::Namespace { name_end, statements } => {
                    has_namespace = true;
                    if let Some(e) = name_end {
                        namespace_end = Some(*e);
                    }
                    let mut j: usize = 0;
                    while j < statements.len()
                        invariant
                            j <= statements@.len(),
                            use_ranges@ == (uses0 + member_uses(statements@.take(j as int))).map_values(
                                |u: UseStatement| u.span,
                            ),
                            views(already_imported@).no_duplicates(),
                            same_names(
                                views(already_imported@),
                                all_imported(uses0 + member_uses(statements@.take(j as int))),
                            ),
                        decreases statements@.len() - j,
                    {
                        assert(statements@.take(j + 1).drop_last() =~= statements@.take(j as int));
                        if let NamespaceMember::Use(use_stmt) = &statements[j] {
                            let ghost us = uses0 + member_uses(statements@.take(j as int));
                            assert(uses0 + member_uses(statements@.take(j + 1)) =~= us.push(
                                *use_stmt,
                            ));
                            assert(us.push(*use_stmt).drop_last() =~= us);
                            use_ranges.push(use_stmt.span);
                            collect_imported_names(use_stmt, &mut already_imported);
                            proof {
                                lemma_names_concat(
                                    all_imported(us),
                                    names_imported(item_names(use_stmt.items)),
                                );
                            }
                        } else {
                            assert(uses0 + member_uses(statements@.take(j + 1)) =~= uses0
                                + member_uses(statements@.take(j as int)));
                        }
                        j = j + 1;
                    }
                    assert(statements@.take(j as int) =~= statements@);
                    proof {
                        assert(declares_namespace(sv.take(i + 1))) by {
                            assert(sv.take(i + 1)[i as int] is Namespace);
                        }
                    }
                },
                TopStatement::Use(use_stmt) => {
                    assert(all_uses(sv.take(i + 1)) == uses0.push(*use_stmt));
                    assert(uses0.push(*use_stmt).drop_last() =~= uses0);
                    use_ranges.push(use_stmt.span);
                    assert(use_ranges@ =~= all_uses(sv.take(i + 1)).map_values(
                        |u: UseStatement| u.span,
                    ));
                    collect_imported_names(use_stmt, &mut already_imported);
                    proof {
                        lemma_names_concat(
                            all_imported(uses0),
                            names_imported(item_names(use_stmt.items)),
                        );
                    }
                },
                TopStatement::Other => {},
            }
            proof {
                if !(sv[i as int] is Namespace) {
                    assert(declares_namespace(sv.take(i + 1)) == declares_namespace(pre)) by {
                        if declares_namespace(sv.take(i + 1)) {
                            let k = choose|k: int|
                                0 <= k < i + 1 && (#[trigger] sv.take(i + 1)[k]) is Namespace;
                            assert(pre[k] == sv.take(i + 1)[k]);
                        }
                        if declares_namespace(pre) {
                            let k = choose|k: int| 0 <= k < i && (#[trigger] pre[k]) is Namespace;
                            assert(pre[k] == sv.take(i + 1)[k]);
                        }
                    }
                }
            }
            i = i + 1;
        }
        assert(sv.take(i as int) =~= sv);
        if !has_namespace {
            assert(issue_views(issues@) =~= Seq::<IssueSpec>::empty());
            return issues;
        }
        let ghost uses = all_uses(sv);
        let collector = FqnCollector::collect(&program.sites);
        let refs = &collector.refs;
        let ghost rv = ref_views(refs@);
        let mut sorted: Vec<FqnReference> = Vec::new();
        let mut k: usize = 0;
        while k < refs.len()
            invariant
                k <= refs@.len(),
                rv == ref_views(refs@),
                rv == collected(program.sites@),
                uses == all_uses(sv),
                use_ranges@ == uses.map_values(|u: UseStatement| u.span),
                same_names(views(already_imported@), all_imported(uses)),
                ref_views(sorted@) == sort_by_name(reported_refs(self.cfg, uses, rv.take(k as int))),
            decreases refs@.len() - k,
        {
            let r = &refs[k];
            assert(rv.take(k + 1).drop_last() =~= rv.take(k as int));
            assert(rv.take(k + 1).last() == r@);
            let enabled = match r.kind {
                NameKind::Class => self.cfg.import_classes,
                NameKind::Function => self.cfg.import_functions,
                NameKind::Constant => self.cfg.import_constants,
            };
            let offset = r.span.start;
            let mut in_use_stmt = false;
            let mut u: usize = 0;
            while u < use_ranges.len()
                invariant
                    u <= use_ranges@.len(),
                    use_ranges@ == uses.map_values(|x: UseStatement| x.span),
                    in_use_stmt == (exists|m: int|
                        0 <= m < u && uses[m].span.start <= offset && offset < uses[m].span.end),
                decreases use_ranges@.len() - u,
            {
                let range = use_ranges[u];
                assert(range == uses[u as int].span);
                if offset >= range.start && offset < range.end {
                    in_use_stmt = true;
                }
                u = u + 1;
            }
            assert(in_use_stmt == in_use_range(uses, offset));
            let imported = contains_bytes_in(&already_imported, r.name.as_slice());
            let ghost prev = reported_refs(self.cfg, uses, rv.take(k as int));
            assert(enabled && !in_use_stmt && !imported <==> reported_ref(self.cfg, uses, r@));
            assert(reported_refs(self.cfg, uses, rv.take(k + 1)) == if reported_ref(
                self.cfg,
                uses,
                r@,
            ) {
                prev.push(r@)
            } else {
                prev
            });
            if enabled && !in_use_stmt && !imported {
                assert(sort_by_name(prev.push(r@)) == insert_sorted(sort_by_name(prev), r@)) by {
                    assert(prev.push(r@).drop_last() =~= prev);
                }
                let ghost s0 = ref_views(sorted@);
                let mut j: usize = sorted.len();
                while j > 0 && !lex_le_bytes(sorted[j - 1].name.as_slice(), r.name.as_slice())
                    invariant
                        j <= sorted@.len(),
                        s0 == ref_views(sorted@),
                        forall|m: int| j <= m < s0.len() ==> !lex_le(#[trigger] s0[m].name, r.name@),
                    decreases j,
                {
                    assert(s0[j - 1] == sorted@[j - 1]@);
                    j = j - 1;
                }
                proof {
                    if j > 0 {
                        assert(s0[j - 1] == sorted@[j - 1]@);
                    }
                    lemma_insert_sorted_at(s0, r@, j as int);
                }
                let c = copy_ref(r);
                sorted.insert(j, c);
                assert(ref_views(sorted@) =~= s0.take(j as int).push(r@) + s0.skip(j as int));
            }
            k = k + 1;
        }
        assert(rv.take(k as int) =~= rv);
        let insertion = if use_ranges.len() > 0 {
            Some(use_ranges[use_ranges.len() - 1].end)
        } else {
            namespace_end
        };
        assert(insertion == insertion_offset(sv));
        let ghost sv2 = ref_views(sorted@);
        let mut m: usize = 0;
        while m < sorted.len()
            invariant
                m <= sorted@.len(),
                sv2 == ref_views(sorted@),
                issue_views(issues@) == sv2.take(m as int).map_values(
                    |r: RefSpec| fqn_issue(self.cfg.level, r, insertion),
                ),
            decreases sorted@.len() - m,
        {
            let issue = self.fqn_issue_for(&sorted[m], insertion);
            let ghost i0 = issues@;
            issues.push(issue);
            assert(issue_views(issues@) =~= issue_views(i0).push(issue@));
            assert(sv2.take(m + 1).map_values(|r: RefSpec| fqn_issue(self.cfg.level, r, insertion))
                =~= sv2.take(m as int).map_values(
                |r: RefSpec| fqn_issue(self.cfg.level, r, insertion),
            ).push(fqn_issue(self.cfg.level, sv2[m as int], insertion)));
            m = m + 1;
        }
        assert(sv2.take(m as int) =~= sv2);
        issues
    }
}

} // verus!
