//! Alias templates, grouped in categories, that can be imported into a shell
//! configuration.
use vstd::prelude::*;

use crate::alias::{clone_strings, string_views};

verus! {

/// The category of a template.
#[derive(Debug, Clone, Copy, PartialEq, Eq, Structural)]
pub enum TemplateCategory {
    /// Git aliases.
    Git,
    /// Docker aliases.
    Docker,
    /// File operation aliases.
    FileOps,
    /// Network aliases.
    Network,
    /// User-defined aliases.
    Custom,
}

/// The lowercase key of a category, as it is serialised and filtered by.
pub open spec fn category_key(c: TemplateCategory) -> Seq<char> {
    match c {
        TemplateCategory::Git => "git"@,
        TemplateCategory::Docker => "docker"@,
        TemplateCategory::FileOps => "fileops"@,
        TemplateCategory::Network => "network"@,
        TemplateCategory::Custom => "custom"@,
    }
}

/// The display label of a category.
pub open spec fn category_label(c: TemplateCategory) -> Seq<char> {
    match c {
        TemplateCategory::Git => "Git"@,
        TemplateCategory::Docker => "Docker"@,
        TemplateCategory::FileOps => "文件操作"@,
        TemplateCategory::Network => "网络"@,
        TemplateCategory::Custom => "自定义"@,
    }
}

impl TemplateCategory {
    /// The display label of this category.
    pub fn label(&self) -> (r: &'static str)
        ensures
            r@ == category_label(*self),
    {
        match self {
            TemplateCategory::Git => "Git",
            TemplateCategory::Docker => "Docker",
            TemplateCategory::FileOps => "文件操作",
            TemplateCategory::Network => "网络",
            TemplateCategory::Custom => "自定义",
        }
    }

    /// The displayed text of this category: its label.
    pub fn display(&self) -> (r: String)
        ensures
            r@ == category_label(*self),
    {
        String::from_str(self.label())
    }

    /// The lowercase key of this category.
    pub fn key(&self) -> (r: &'static str)
        ensures
            r@ == category_key(*self),
    {
        match self {
            TemplateCategory::Git => "git",
            TemplateCategory::Docker => "docker",
            TemplateCategory::FileOps => "fileops",
            TemplateCategory::Network => "network",
            TemplateCategory::Custom => "custom",
        }
    }

    /// All categories, in the order Git, Docker, FileOps, Network, Custom.
    pub fn all() -> (r: Vec<TemplateCategory>)
        ensures
            r@ == seq![
                TemplateCategory::Git,
                TemplateCategory::Docker,
                TemplateCategory::FileOps,
                TemplateCategory::Network,
                TemplateCategory::Custom,
            ],
    {
        let r = vec![
            TemplateCategory::Git,
            TemplateCategory::Docker,
            TemplateCategory::FileOps,
            TemplateCategory::Network,
            TemplateCategory::Custom,
        ];
        assert(r@ =~= seq![
            TemplateCategory::Git,
            TemplateCategory::Docker,
            TemplateCategory::FileOps,
            TemplateCategory::Network,
            TemplateCategory::Custom,
        ]);
        r
    }
}

/// A template alias that can be imported into a shell configuration.
#[derive(Debug, Clone, PartialEq)]
pub struct Template {
    /// The alias name.
    pub name: String,
    /// The command of the alias.
    pub command: String,
    /// A short description of what the alias does.
    pub description: String,
    /// The category of the template.
    pub category: TemplateCategory,
    /// Optional tags.
    pub tags: Vec<String>,
}

/// The mathematical value of a [`Template`].
#[verifier::ext_equal]
pub struct TemplateView {
    pub name: Seq<char>,
    pub command: Seq<char>,
    pub description: Seq<char>,
    pub category: TemplateCategory,
    pub tags: Seq<Seq<char>>,
}

impl View for Template {
    type V = TemplateView;

    open spec fn view(&self) -> TemplateView {
        TemplateView {
            name: self.name@,
            command: self.command@,
            description: self.description@,
            category: self.category,
            tags: string_views(self.tags@),
        }
    }
}

/// The views of a sequence of templates.
pub open spec fn template_views(v: Seq<Template>) -> Seq<TemplateView> {
    v.map_values(|t: Template| t@)
}

impl Template {
    /// A new template without tags.
    pub fn new(name: String, command: String, description: String, category: TemplateCategory) -> (r:
        Template)
        ensures
            r.name@ == name@,
            r.command@ == command@,
            r.description@ == description@,
            r.category == category,
            r.tags@.len() == 0,
    {
        Template { name, command, description, category, tags: Vec::new() }
    }

    /// A new template with tags.
    pub fn with_tags(
        name: String,
        command: String,
        description: String,
        category: TemplateCategory,
        tags: Vec<String>,
    ) -> (r: Template)
        ensures
            r.name@ == name@,
            r.command@ == command@,
            r.description@ == description@,
            r.category == category,
            r.tags@ == tags@,
    {
        Template { name, command, description, category, tags }
    }

    /// A copy of this template.
    pub fn duplicate(&self) -> (r: Template)
        ensures
            r@ == self@,
    {
        Template {
            name: self.name.clone(),
            command: self.command.clone(),
            description: self.description.clone(),
            category: self.category,
            tags: clone_strings(&self.tags),
        }
    }
}

} // verus!
