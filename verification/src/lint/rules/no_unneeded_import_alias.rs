//! `use Foo\Bar as Bar` is `use Foo\Bar`.
use vstd::prelude::*;

use crate::lint::ast::UseItem;
use crate::lint::meta::{Category, NodeKind, RuleMeta};
use crate::lint::report::{
    bytes_of, utf8, Annotation, AnnotationSpec, EditSpec, Issue, IssueSpec, Level, Span, TextEdit,
};
use crate::lint::rules::yoda_conditions::{span_in, text_of};
use crate::text::{copy_range, push_all};

verus! {

/// The settings of the rule.
#[derive(Debug, Clone, Copy, PartialEq, Eq, Hash)]
pub struct NoUnneededImportAliasConfig {
    pub level: Level,
}

impl Default for NoUnneededImportAliasConfig {
    fn default() -> (r: Self)
        ensures
            r.level == Level::Help,
    {
        Self { level: Level::Help }
    }
}

impl NoUnneededImportAliasConfig {
    /// The rule is off unless enabled.
    pub fn default_enabled() -> (r: bool)
        ensures
            !r,
    {
        false
    }

    /// The level of the issues it reports.
    pub fn level(&self) -> (r: Level)
        ensures
            r == self.level,
    {
        self.level
    }
}

/// The rule with its settings.
#[derive(Debug, Clone, Copy)]
pub struct NoUnneededImportAliasRule {
    pub meta: RuleMeta,
    pub cfg: NoUnneededImportAliasConfig,
}

/// The part of `s` after its last `b` (all of `s` when it has none).
pub open spec fn after_last(s: Seq<u8>, b: u8) -> Seq<u8>
    decreases s.len(),
{
    if s.len() == 0 {
        s
    } else if s.last() == b {
        Seq::empty()
    } else {
        after_last(s.drop_last(), b).push(s.last())
    }
}

/// The last segment of a namespaced name: what follows its last `\`.
pub open spec fn last_segment(name: Seq<u8>) -> Seq<u8> {
    after_last(name, 0x5Cu8)
}

/// The alias repeats the last segment of the imported name.
pub open spec fn alias_unneeded(source: Seq<u8>, item: UseItem) -> bool {
    match item.alias {
        Some(alias) => last_segment(text_of(source, item.name)) == text_of(source, alias.identifier),
        None => false,
    }
}

/// Where the item has an alias, its name and its alias lie within the source.
pub open spec fn item_in(source: Seq<u8>, item: UseItem) -> bool {
    match item.alias {
        Some(alias) => span_in(source, item.name) && span_in(source, alias.identifier),
        None => true,
    }
}

/// The issue for an unneeded alias, with the fix that deletes ` as Alias`.
pub open spec fn alias_issue(level: Level, source: Seq<u8>, item: UseItem) -> IssueSpec {
    let alias = item.alias->0;
    IssueSpec {
        level,
        code: utf8("no-unneeded-import-alias"),
        message: utf8("Unnecessary import alias `as ") + text_of(source, alias.identifier) + utf8(
            "`",
        ),
        annotations: seq![
            AnnotationSpec {
                span: Span { start: alias.as_keyword.start, end: alias.identifier.end },
                message: utf8("This alias matches the class name and is redundant"),
                primary: true,
            },
        ],
        notes: Seq::empty(),
        help: Some(utf8("Remove the `as` clause")),
        edits: Some(
            seq![EditSpec { start: item.name.end, end: alias.identifier.end, text: Seq::empty() }],
        ),
    }
}

/// Index just after the last `\` of `s`, or 0.
fn last_segment_start(s: &[u8]) -> (r: usize)
    ensures
        r <= s@.len(),
        s@.skip(r as int) == last_segment(s@),
{
    let mut k: usize = s.len();
    assert(s@.take(k as int) =~= s@);
    assert(s@.skip(k as int) =~= Seq::<u8>::empty());
    assert(after_last(s@, 0x5Cu8) + Seq::<u8>::empty() =~= after_last(s@, 0x5Cu8));
    while k > 0 && s[k - 1] != 0x5C
        invariant
            k <= s@.len(),
            after_last(s@, 0x5Cu8) == after_last(s@.take(k as int), 0x5Cu8) + s@.skip(k as int),
        decreases k,
    {
        let ghost t = s@.take(k as int);
        assert(t.drop_last() =~= s@.take(k - 1));
        assert(s@.skip(k - 1) =~= seq![s@[k - 1]] + s@.skip(k as int));
        assert(after_last(t, 0x5Cu8) == after_last(s@.take(k - 1), 0x5Cu8).push(s@[k - 1]));
        assert(after_last(s@.take(k - 1), 0x5Cu8).push(s@[k - 1]) + s@.skip(k as int)
            =~= after_last(s@.take(k - 1), 0x5Cu8) + s@.skip(k - 1));
        k = k - 1;
    }
    proof {
        if k == 0 {
            assert(s@.take(0) =~= Seq::<u8>::empty());
        } else {
            assert(s@.take(k as int).last() == 0x5Cu8);
        }
        assert(after_last(s@.take(k as int), 0x5Cu8) =~= Seq::<u8>::empty());
        assert(Seq::<u8>::empty() + s@.skip(k as int) =~= s@.skip(k as int));
    }
    assert(s@.take(s@.len() as int) =~= s@);
    assert(s@.skip(s@.len() as int) =~= Seq::<u8>::empty());
    k
}

/// Whether two byte strings are equal.
pub fn bytes_eq(a: &[u8], b: &[u8]) -> (r: bool)
    ensures
        r == (a@ == b@),
{
    if a.len() != b.len() {
        return false;
    }
    let mut i: usize = 0;
    while i < a.len()
        invariant
            i <= a@.len() == b@.len(),
            forall|k: int| 0 <= k < i ==> a@[k] == b@[k],
        decreases a@.len() - i,
    {
        if a[i] != b[i] {
            return false;
        }
        i = i + 1;
    }
    assert(a@ =~= b@);
    true
}

impl NoUnneededImportAliasRule {
    /// What the rule says about itself: its name, code, description,
    /// examples and category.
    pub open spec fn rule_meta() -> RuleMeta {
        RuleMeta {
            name: "No Unneeded Import Alias",
            code: "no-unneeded-import-alias",
            description: "Detects `use` statements with an alias that matches the imported class name.\n\n`use Foo\\Bar as Bar` is identical to `use Foo\\Bar` and the alias is redundant.\n",
            good_example: "<?php\n\nuse Foo\\Bar;\nuse Baz\\Qux as RenamedQux;\n",
            bad_example: "<?php\n\nuse Foo\\Bar as Bar;\n",
            category: Category::Redundancy,
        }
    }

    /// What the rule says about itself.
    pub fn meta() -> (r: RuleMeta)
        ensures
            r == Self::rule_meta(),
    {
        RuleMeta {
            name: "No Unneeded Import Alias",
            code: "no-unneeded-import-alias",
            description: "Detects `use` statements with an alias that matches the imported class name.\n\n`use Foo\\Bar as Bar` is identical to `use Foo\\Bar` and the alias is redundant.\n",
            good_example: "<?php\n\nuse Foo\\Bar;\nuse Baz\\Qux as RenamedQux;\n",
            bad_example: "<?php\n\nuse Foo\\Bar as Bar;\n",
            category: Category::Redundancy,
        }
    }

    /// The rule with the given settings.
    pub fn build(cfg: NoUnneededImportAliasConfig) -> (r: Self)
        ensures
            r.cfg == cfg,
            r.meta == Self::rule_meta(),
    {
        Self { meta: Self::meta(), cfg }
    }

    /// The kinds of node the rule is run on.
    pub fn targets() -> (r: Vec<NodeKind>)
        ensures
            r@ == seq![NodeKind::UseItem],
    {
        let mut v: Vec<NodeKind> = Vec::new();
        v.push(NodeKind::UseItem);
        v
    }

    /// The issue for an imported name of `source`, if its alias repeats the
    /// last segment of the name.
    pub fn check(&self, source: &[u8], item: &UseItem) -> (r: Option<Issue>)
        requires
            item_in(source@, *item),
        ensures
            match r {
                Some(i) => alias_unneeded(source@, *item) && i@ == alias_issue(
                    self.cfg.level,
                    source@,
                    *item,
                ),
                None => !alias_unneeded(source@, *item),
            },
    {
        let alias = match item.alias {
            Some(a) => a,
            None => {
                return None;
            },
        };
        let name_span = item.name;
        let name_text = vstd::slice::slice_subrange(
            source,
            name_span.start as usize,
            name_span.end as usize,
        );
        let seg = last_segment_start(name_text);
        let last_segment = vstd::slice::slice_subrange(name_text, seg, name_text.len());
        let alias_span = alias.identifier;
        let alias_text = vstd::slice::slice_subrange(
            source,
            alias_span.start as usize,
            alias_span.end as usize,
        );
        if bytes_eq(last_segment, alias_text) {
            let mut message = bytes_of("Unnecessary import alias `as ");
            push_all(&mut message, alias_text);
            push_all(&mut message, "`".as_bytes());
            let issue = Issue::new(self.cfg.level(), message).with_code(
                bytes_of(Self::meta().code),
            ).with_annotation(
                Annotation::primary(
                    alias.as_keyword.join(alias_span),
                    bytes_of("This alias matches the class name and is redundant"),
                ),
            ).with_help(bytes_of("Remove the `as` clause"));
            let mut edits: Vec<TextEdit> = Vec::new();
            edits.push(TextEdit::delete(name_span.end, alias_span.end));
            let r = issue.with_edits(edits);
            let ghost want = alias_issue(self.cfg.level, source@, *item);
            assert(r@.annotations =~= want.annotations);
            assert(r@.notes =~= want.notes);
            assert(r@.edits->0 =~= want.edits->0);
            return Some(r);
        }
        None
    }
}

} // verus!
