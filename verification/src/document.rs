//! Document model for parsed files.

use vstd::prelude::*;
use crate::json;
use crate::json::{object_text, JsonFieldView, JsonObject, JsonScalar};
use crate::text;
use crate::text::str_eq;

verus! {

/// Byte range in source text (always byte offsets, not character indices).
pub type Span = std::ops::Range<usize>;

/// Whether a span can be cut out of a text.
pub open spec fn span_fits(source: Seq<char>, span: Span) -> bool {
    span.start <= span.end && text::on_boundary(source, span.start as int) && text::on_boundary(
        source,
        span.end as int,
    )
}

/// A copy of a span.
pub fn copy_span(span: &Span) -> (r: Span)
    ensures
        r == *span,
{
    span.start..span.end
}

/// Node type (stored as an integer in the index).
#[derive(Debug, Clone, Copy, PartialEq, Eq, Hash, Structural)]
pub enum NodeType {
    Section,
    CodeBlock,
    Paragraph,
    Function,
    Class,
    Struct,
    Method,
    /// For line-based chunking.
    Chunk,
}

impl NodeType {
    /// The number that the index stores for the type.
    pub open spec fn code(self) -> int {
        match self {
            NodeType::Section => 0,
            NodeType::CodeBlock => 1,
            NodeType::Paragraph => 2,
            NodeType::Function => 3,
            NodeType::Class => 4,
            NodeType::Struct => 5,
            NodeType::Method => 6,
            NodeType::Chunk => 7,
        }
    }

    /// The type with the given number.
    pub open spec fn of_code(val: int) -> Option<NodeType> {
        if val == 0 {
            Some(NodeType::Section)
        } else if val == 1 {
            Some(NodeType::CodeBlock)
        } else if val == 2 {
            Some(NodeType::Paragraph)
        } else if val == 3 {
            Some(NodeType::Function)
        } else if val == 4 {
            Some(NodeType::Class)
        } else if val == 5 {
            Some(NodeType::Struct)
        } else if val == 6 {
            Some(NodeType::Method)
        } else if val == 7 {
            Some(NodeType::Chunk)
        } else {
            None
        }
    }

    /// The name of the type.
    pub open spec fn name(self) -> Seq<char> {
        match self {
            NodeType::Section => "section"@,
            NodeType::CodeBlock => "code_block"@,
            NodeType::Paragraph => "paragraph"@,
            NodeType::Function => "function"@,
            NodeType::Class => "class"@,
            NodeType::Struct => "struct"@,
            NodeType::Method => "method"@,
            NodeType::Chunk => "chunk"@,
        }
    }

    pub fn as_int(self) -> (r: u8)
        ensures
            r == self.code(),
    {
        match self {
            NodeType::Section => 0,
            NodeType::CodeBlock => 1,
            NodeType::Paragraph => 2,
            NodeType::Function => 3,
            NodeType::Class => 4,
            NodeType::Struct => 5,
            NodeType::Method => 6,
            NodeType::Chunk => 7,
        }
    }

    pub fn from_int(val: u8) -> (r: Option<NodeType>)
        ensures
            r == NodeType::of_code(val as int),
    {
        match val {
            0 => Some(NodeType::Section),
            1 => Some(NodeType::CodeBlock),
            2 => Some(NodeType::Paragraph),
            3 => Some(NodeType::Function),
            4 => Some(NodeType::Class),
            5 => Some(NodeType::Struct),
            6 => Some(NodeType::Method),
            7 => Some(NodeType::Chunk),
            _ => None,
        }
    }

    pub fn as_str(self) -> (r: &'static str)
        ensures
            r@ == self.name(),
    {
        match self {
            NodeType::Section => "section",
            NodeType::CodeBlock => "code_block",
            NodeType::Paragraph => "paragraph",
            NodeType::Function => "function",
            NodeType::Class => "class",
            NodeType::Struct => "struct",
            NodeType::Method => "method",
            NodeType::Chunk => "chunk",
        }
    }

    /// The type with the given name.
    pub fn from_name(s: &str) -> (r: Option<NodeType>)
        ensures
            match r {
                Some(t) => t.name() == s@,
                None => forall|t: NodeType| #[trigger] t.name() != s@,
            },
    {
        if str_eq(s, "section") {
            Some(NodeType::Section)
        } else if str_eq(s, "code_block") {
            Some(NodeType::CodeBlock)
        } else if str_eq(s, "paragraph") {
            Some(NodeType::Paragraph)
        } else if str_eq(s, "function") {
            Some(NodeType::Function)
        } else if str_eq(s, "class") {
            Some(NodeType::Class)
        } else if str_eq(s, "struct") {
            Some(NodeType::Struct)
        } else if str_eq(s, "method") {
            Some(NodeType::Method)
        } else if str_eq(s, "chunk") {
            Some(NodeType::Chunk)
        } else {
            None
        }
    }
}

/// The stored number of a type gives the type back, and no other number gives
/// it.
pub proof fn law_node_type_code(t: NodeType, val: int)
    ensures
        NodeType::of_code(t.code()) == Some(t),
        NodeType::of_code(val) == Some(t) ==> val == t.code(),
{
}

/// Two node types with one name are the same type.
pub proof fn law_node_type_name(a: NodeType, b: NodeType)
    requires
        a.name() == b.name(),
    ensures
        a == b,
{
    reveal_strlit("section");
    reveal_strlit("code_block");
    reveal_strlit("paragraph");
    reveal_strlit("function");
    reveal_strlit("class");
    reveal_strlit("struct");
    reveal_strlit("method");
    reveal_strlit("chunk");
    assert("section"@.len() == 7 && "code_block"@.len() == 10 && "paragraph"@.len() == 9);
    assert("function"@.len() == 8 && "class"@.len() == 5 && "chunk"@.len() == 5);
    assert("struct"@.len() == 6 && "method"@.len() == 6);
    assert("class"@[1] == 'l' && "chunk"@[1] == 'h' && "struct"@[0] == 's' && "method"@[0] == 'm');
}

/// Type-specific metadata.
#[derive(Debug)]
pub enum NodeMetadata {
    Section { heading: String, level: u8 },
    CodeBlock { language: Option<String> },
    Paragraph,
    Function { name: String, signature: Option<String> },
    Class { name: String },
    Struct { name: String },
    Method { name: String, class_name: Option<String> },
    Chunk { index: usize },
}

/// The view of a [`NodeMetadata`].
pub enum NodeMetadataView {
    Section { heading: Seq<char>, level: u8 },
    CodeBlock { language: Option<Seq<char>> },
    Paragraph,
    Function { name: Seq<char>, signature: Option<Seq<char>> },
    Class { name: Seq<char> },
    Struct { name: Seq<char> },
    Method { name: Seq<char>, class_name: Option<Seq<char>> },
    Chunk { index: usize },
}

impl View for NodeMetadata {
    type V = NodeMetadataView;

    open spec fn view(&self) -> NodeMetadataView {
        match *self {
            NodeMetadata::Section { heading, level } => NodeMetadataView::Section {
                heading: heading@,
                level,
            },
            NodeMetadata::CodeBlock { language } => NodeMetadataView::CodeBlock {
                language: text::opt_view(language),
            },
            NodeMetadata::Paragraph => NodeMetadataView::Paragraph,
            NodeMetadata::Function { name, signature } => NodeMetadataView::Function {
                name: name@,
                signature: text::opt_view(signature),
            },
            NodeMetadata::Class { name } => NodeMetadataView::Class { name: name@ },
            NodeMetadata::Struct { name } => NodeMetadataView::Struct { name: name@ },
            NodeMetadata::Method { name, class_name } => NodeMetadataView::Method {
                name: name@,
                class_name: text::opt_view(class_name),
            },
            NodeMetadata::Chunk { index } => NodeMetadataView::Chunk { index },
        }
    }
}

impl Clone for NodeMetadata {
    fn clone(&self) -> (r: NodeMetadata)
        ensures
            r == *self,
    {
        match self {
            NodeMetadata::Section { heading, level } => NodeMetadata::Section {
                heading: heading.clone(),
                level: *level,
            },
            NodeMetadata::CodeBlock { language } => NodeMetadata::CodeBlock {
                language: language.clone(),
            },
            NodeMetadata::Paragraph => NodeMetadata::Paragraph,
            NodeMetadata::Function { name, signature } => NodeMetadata::Function {
                name: name.clone(),
                signature: signature.clone(),
            },
            NodeMetadata::Class { name } => NodeMetadata::Class { name: name.clone() },
            NodeMetadata::Struct { name } => NodeMetadata::Struct { name: name.clone() },
            NodeMetadata::Method { name, class_name } => NodeMetadata::Method {
                name: name.clone(),
                class_name: class_name.clone(),
            },
            NodeMetadata::Chunk { index } => NodeMetadata::Chunk { index: *index },
        }
    }
}

/// A string field or null.
pub open spec fn nullable(s: Option<Seq<char>>) -> JsonFieldView {
    match s {
        Some(t) => JsonFieldView::Text(t),
        None => JsonFieldView::Null,
    }
}

fn nullable_scalar(s: &Option<String>) -> (r: JsonScalar)
    ensures
        r@ == nullable(text::opt_view(*s)),
{
    match s {
        Some(t) => JsonScalar::Text(t.clone()),
        None => JsonScalar::Null,
    }
}

fn text_scalar(s: &str) -> (r: JsonScalar)
    ensures
        r@ == JsonFieldView::Text(s@),
{
    JsonScalar::Text(s.to_owned())
}

impl NodeMetadataView {
    /// The node type that this is metadata of.
    pub open spec fn node_type(self) -> NodeType {
        match self {
            NodeMetadataView::Section { .. } => NodeType::Section,
            NodeMetadataView::CodeBlock { .. } => NodeType::CodeBlock,
            NodeMetadataView::Paragraph => NodeType::Paragraph,
            NodeMetadataView::Function { .. } => NodeType::Function,
            NodeMetadataView::Class { .. } => NodeType::Class,
            NodeMetadataView::Struct { .. } => NodeType::Struct,
            NodeMetadataView::Method { .. } => NodeType::Method,
            NodeMetadataView::Chunk { .. } => NodeType::Chunk,
        }
    }

    /// The fields under which the metadata is stored.
    pub open spec fn json(self) -> Seq<(Seq<char>, JsonFieldView)> {
        let kind = ("type"@, JsonFieldView::Text(self.node_type().name()));
        match self {
            NodeMetadataView::Section { heading, level } => seq![
                kind,
                ("heading"@, JsonFieldView::Text(heading)),
                ("level"@, JsonFieldView::Number(Some(level as u64))),
            ],
            NodeMetadataView::CodeBlock { language } => seq![
                kind,
                ("language"@, nullable(language)),
            ],
            NodeMetadataView::Paragraph => seq![kind],
            NodeMetadataView::Function { name, signature } => seq![
                kind,
                ("name"@, JsonFieldView::Text(name)),
                ("signature"@, nullable(signature)),
            ],
            NodeMetadataView::Class { name } => seq![kind, ("name"@, JsonFieldView::Text(name))],
            NodeMetadataView::Struct { name } => seq![kind, ("name"@, JsonFieldView::Text(name))],
            NodeMetadataView::Method { name, class_name } => seq![
                kind,
                ("name"@, JsonFieldView::Text(name)),
                ("class_name"@, nullable(class_name)),
            ],
            NodeMetadataView::Chunk { index } => seq![
                kind,
                ("index"@, JsonFieldView::Number(Some(index as u64))),
            ],
        }
    }

    /// The metadata of a node of the given type that the stored fields hold.
    /// Numbers too large for their field lose their high bits.
    pub open spec fn of_json(
        fields: Map<Seq<char>, JsonFieldView>,
        node_type: NodeType,
    ) -> Option<NodeMetadataView> {
        let name = json::text_field(fields, "name"@);
        match node_type {
            NodeType::Section => match (
                json::text_field(fields, "heading"@),
                json::number_field(fields, "level"@),
            ) {
                (Some(heading), Some(level)) => Some(
                    NodeMetadataView::Section { heading, level: level as u8 },
                ),
                _ => None,
            },
            NodeType::CodeBlock => Some(
                NodeMetadataView::CodeBlock { language: json::text_field(fields, "language"@) },
            ),
            NodeType::Paragraph => Some(NodeMetadataView::Paragraph),
            NodeType::Function => match name {
                Some(name) => Some(
                    NodeMetadataView::Function {
                        name,
                        signature: json::text_field(fields, "signature"@),
                    },
                ),
                None => None,
            },
            NodeType::Class => match name {
                Some(name) => Some(NodeMetadataView::Class { name }),
                None => None,
            },
            NodeType::Struct => match name {
                Some(name) => Some(NodeMetadataView::Struct { name }),
                None => None,
            },
            NodeType::Method => match name {
                Some(name) => Some(
                    NodeMetadataView::Method {
                        name,
                        class_name: json::text_field(fields, "class_name"@),
                    },
                ),
                None => None,
            },
            NodeType::Chunk => match json::number_field(fields, "index"@) {
                Some(index) => Some(NodeMetadataView::Chunk { index: index as usize }),
                None => None,
            },
        }
    }

    /// The name that symbol search finds the node by.
    pub open spec fn searchable(self) -> Option<Seq<char>> {
        match self {
            NodeMetadataView::Section { heading, .. } => Some(heading),
            NodeMetadataView::Function { name, .. } => Some(name),
            NodeMetadataView::Class { name } => Some(name),
            NodeMetadataView::Struct { name } => Some(name),
            NodeMetadataView::Method { name, .. } => Some(name),
            _ => None,
        }
    }
}

fn push_field(fields: &mut Vec<(String, JsonScalar)>, name: &str, value: JsonScalar)
    ensures
        final(fields)@.len() == old(fields)@.len() + 1,
        final(fields)@.drop_last() == old(fields)@,
        text::views(final(fields)@) == text::views(old(fields)@).push((name@, value@)),
{
    let entry: (String, JsonScalar) = (name.to_owned(), value);
    proof {
        text::lemma_views_push(fields@, entry);
        assert(fields@.push(entry).drop_last() =~= fields@);
    }
    fields.push(entry);
}

impl NodeMetadata {
    /// The metadata as a JSON text, for storage.
    pub fn to_json(&self) -> (r: String)
        ensures
            r@ == json::json_object_text(self@.json()),
            json::json_fields(r@) == Some(pairs_map(self@.json())),
            NodeMetadataView::of_json(pairs_map(self@.json()), self@.node_type()) == Some(self@),
    {
        let mut fields: Vec<(String, JsonScalar)> = Vec::new();
        match self {
            NodeMetadata::Section { heading, level } => {
                push_field(&mut fields, "type", text_scalar("section"));
                push_field(&mut fields, "heading", JsonScalar::Text(heading.clone()));
                push_field(&mut fields, "level", JsonScalar::Number(*level as u64));
            },
            NodeMetadata::CodeBlock { language } => {
                push_field(&mut fields, "type", text_scalar("code_block"));
                push_field(&mut fields, "language", nullable_scalar(language));
            },
            NodeMetadata::Paragraph => {
                push_field(&mut fields, "type", text_scalar("paragraph"));
            },
            NodeMetadata::Function { name, signature } => {
                push_field(&mut fields, "type", text_scalar("function"));
                push_field(&mut fields, "name", JsonScalar::Text(name.clone()));
                push_field(&mut fields, "signature", nullable_scalar(signature));
            },
            NodeMetadata::Class { name } => {
                push_field(&mut fields, "type", text_scalar("class"));
                push_field(&mut fields, "name", JsonScalar::Text(name.clone()));
            },
            NodeMetadata::Struct { name } => {
                push_field(&mut fields, "type", text_scalar("struct"));
                push_field(&mut fields, "name", JsonScalar::Text(name.clone()));
            },
            NodeMetadata::Method { name, class_name } => {
                push_field(&mut fields, "type", text_scalar("method"));
                push_field(&mut fields, "name", JsonScalar::Text(name.clone()));
                push_field(&mut fields, "class_name", nullable_scalar(class_name));
            },
            NodeMetadata::Chunk { index } => {
                push_field(&mut fields, "type", text_scalar("chunk"));
                push_field(&mut fields, "index", JsonScalar::Number(*index as u64));
            },
        }
        proof {
            assert(text::views(fields@) =~= self@.json());
            lemma_field_map_views(fields@);
            lemma_json_round_trip(self@);
        }
        object_text(fields)
    }

    /// Reads stored metadata of a node of the given type.
    pub fn from_json(json: &str, node_type: NodeType) -> (r: Option<NodeMetadata>)
        ensures
            match json::json_fields(json@) {
                Some(fields) => text::opt_view(r) == NodeMetadataView::of_json(fields, node_type),
                None => r is None,
            },
    {
        let v: JsonObject = match JsonObject::parse(json) {
            Some(v) => v,
            None => {
                return None;
            },
        };
        match node_type {
            NodeType::Section => match (v.get_text("heading"), v.get_number("level")) {
                (Some(heading), Some(level)) => Some(
                    NodeMetadata::Section {
                        heading,
                        level: #[verifier::truncate]
                        (level as u8),
                    },
                ),
                _ => None,
            },
            NodeType::CodeBlock => Some(
                NodeMetadata::CodeBlock { language: v.get_text("language") },
            ),
            NodeType::Paragraph => Some(NodeMetadata::Paragraph),
            NodeType::Function => match v.get_text("name") {
                Some(name) => Some(
                    NodeMetadata::Function { name, signature: v.get_text("signature") },
                ),
                None => None,
            },
            NodeType::Class => match v.get_text("name") {
                Some(name) => Some(NodeMetadata::Class { name }),
                None => None,
            },
            NodeType::Struct => match v.get_text("name") {
                Some(name) => Some(NodeMetadata::Struct { name }),
                None => None,
            },
            NodeType::Method => match v.get_text("name") {
                Some(name) => Some(
                    NodeMetadata::Method { name, class_name: v.get_text("class_name") },
                ),
                None => None,
            },
            NodeType::Chunk => match v.get_number("index") {
                Some(index) => Some(
                    NodeMetadata::Chunk {
                        index: #[verifier::truncate]
                        (index as usize),
                    },
                ),
                None => None,
            },
        }
    }

    /// The name that symbol search finds the node by.
    pub fn searchable_name(&self) -> (r: Option<&str>)
        ensures
            match r {
                Some(s) => self@.searchable() == Some(s@),
                None => self@.searchable() is None,
            },
    {
        match self {
            NodeMetadata::Section { heading, .. } => Some(heading.as_str()),
            NodeMetadata::Function { name, .. } => Some(name.as_str()),
            NodeMetadata::Class { name } => Some(name.as_str()),
            NodeMetadata::Struct { name } => Some(name.as_str()),
            NodeMetadata::Method { name, .. } => Some(name.as_str()),
            _ => None,
        }
    }
}

/// The fields of a list of named values by name; of two with one name the later
/// counts.
pub open spec fn pairs_map(fields: Seq<(Seq<char>, JsonFieldView)>) -> Map<
    Seq<char>,
    JsonFieldView,
>
    decreases fields.len(),
{
    if fields.len() == 0 {
        Map::empty()
    } else {
        pairs_map(fields.drop_last()).insert(fields.last().0, fields.last().1)
    }
}

proof fn lemma_field_map_views(fields: Seq<(String, JsonScalar)>)
    ensures
        json::field_map(fields) == pairs_map(text::views(fields)),
    decreases fields.len(),
{
    if fields.len() > 0 {
        lemma_field_map_views(fields.drop_last());
        assert(text::views(fields).drop_last() =~= text::views(fields.drop_last()));
    }
}

proof fn lemma_json_round_trip(m: NodeMetadataView)
    ensures
        NodeMetadataView::of_json(pairs_map(m.json()), m.node_type()) == Some(m),
{
    reveal_with_fuel(pairs_map, 4);
    reveal_strlit("type");
    reveal_strlit("name");
    reveal_strlit("heading");
    reveal_strlit("level");
    reveal_strlit("language");
    reveal_strlit("signature");
    reveal_strlit("class_name");
    reveal_strlit("index");
    assert("type"@[0] != "name"@[0]);
    assert("type"@.len() != "heading"@.len() && "type"@.len() != "level"@.len());
    assert("heading"@.len() != "level"@.len() && "type"@.len() != "language"@.len());
    assert("type"@.len() != "signature"@.len() && "name"@.len() != "signature"@.len());
    assert("type"@.len() != "class_name"@.len() && "name"@.len() != "class_name"@.len());
    assert("type"@.len() != "index"@.len());
    let all = m.json();
    if all.len() == 3 {
        assert(all.drop_last().drop_last() =~= seq![all[0]]);
        assert(all.drop_last() =~= seq![all[0], all[1]]);
        assert(seq![all[0]].drop_last().len() == 0);
    } else if all.len() == 2 {
        assert(all.drop_last() =~= seq![all[0]]);
        assert(seq![all[0]].drop_last().len() == 0);
    }
    match m {
        NodeMetadataView::Section { level, .. } => {
            assert((level as u64) as u8 == level) by (bit_vector);
        },
        _ => {},
    }
}

/// Metadata read from what was written for it is the same metadata.
pub proof fn law_metadata_round_trip(m: NodeMetadataView)
    ensures
        NodeMetadataView::of_json(pairs_map(m.json()), m.node_type()) == Some(m),
{
    lemma_json_round_trip(m);
}

/// Reference type (call, import, type usage).
#[derive(Debug, Clone, Copy, PartialEq, Eq, Structural)]
pub enum RefType {
    /// Function or method call.
    Call,
    /// Import statement.
    Import,
    /// Type reference (type annotation, inheritance).
    TypeRef,
}

impl RefType {
    /// The name of the type.
    pub open spec fn name(self) -> Seq<char> {
        match self {
            RefType::Call => "call"@,
            RefType::Import => "import"@,
            RefType::TypeRef => "type_ref"@,
        }
    }

    /// The type with the given name.
    pub open spec fn of_name(s: Seq<char>) -> Option<RefType> {
        if s == "call"@ {
            Some(RefType::Call)
        } else if s == "import"@ {
            Some(RefType::Import)
        } else if s == "type_ref"@ {
            Some(RefType::TypeRef)
        } else {
            None
        }
    }

    pub fn as_str(self) -> (r: &'static str)
        ensures
            r@ == self.name(),
    {
        match self {
            RefType::Call => "call",
            RefType::Import => "import",
            RefType::TypeRef => "type_ref",
        }
    }

    pub fn parse(s: &str) -> (r: Option<RefType>)
        ensures
            r == RefType::of_name(s@),
    {
        if str_eq(s, "call") {
            Some(RefType::Call)
        } else if str_eq(s, "import") {
            Some(RefType::Import)
        } else if str_eq(s, "type_ref") {
            Some(RefType::TypeRef)
        } else {
            None
        }
    }
}

/// The name of a reference type reads back as that type.
pub proof fn law_ref_type_name(t: RefType)
    ensures
        RefType::of_name(t.name()) == Some(t),
{
    reveal_strlit("call");
    reveal_strlit("import");
    reveal_strlit("type_ref");
    assert("call"@.len() != "import"@.len() && "call"@.len() != "type_ref"@.len());
    assert("import"@.len() != "type_ref"@.len());
}

/// A node extracted from a file.
#[derive(Debug)]
pub struct DocumentNode {
    pub node_type: NodeType,
    pub span: Span,
    /// Line numbers, counted from one.
    pub line_range: (usize, usize),
    pub metadata: NodeMetadata,
    /// Parent symbol name (such as the class name for methods).
    pub parent_name: Option<String>,
    /// Handle ID of the parent node (if applicable).
    pub parent_handle_id: Option<String>,
    /// Parent node type (if applicable).
    pub parent_node_type: Option<NodeType>,
    /// Parent node span (if applicable).
    pub parent_span: Option<Span>,
}

/// The view of a [`DocumentNode`].
pub struct DocumentNodeView {
    pub node_type: NodeType,
    pub span: Span,
    pub line_range: (usize, usize),
    pub metadata: NodeMetadataView,
    pub parent_name: Option<Seq<char>>,
    pub parent_handle_id: Option<Seq<char>>,
    pub parent_node_type: Option<NodeType>,
    pub parent_span: Option<Span>,
}

impl View for DocumentNode {
    type V = DocumentNodeView;

    open spec fn view(&self) -> DocumentNodeView {
        DocumentNodeView {
            node_type: self.node_type,
            span: self.span,
            line_range: self.line_range,
            metadata: self.metadata@,
            parent_name: text::opt_view(self.parent_name),
            parent_handle_id: text::opt_view(self.parent_handle_id),
            parent_node_type: self.parent_node_type,
            parent_span: self.parent_span,
        }
    }
}

impl DocumentNodeView {
    /// A node without a parent.
    pub open spec fn top(
        span: Span,
        line_range: (usize, usize),
        metadata: NodeMetadataView,
    ) -> DocumentNodeView {
        DocumentNodeView {
            node_type: metadata.node_type(),
            span,
            line_range,
            metadata,
            parent_name: None,
            parent_handle_id: None,
            parent_node_type: None,
            parent_span: None,
        }
    }
}

impl DocumentNode {
    /// A node without a parent.
    pub fn top(
        node_type: NodeType,
        span: Span,
        line_range: (usize, usize),
        metadata: NodeMetadata,
    ) -> (r: DocumentNode)
        requires
            node_type == metadata@.node_type(),
        ensures
            r@ == DocumentNodeView::top(span, line_range, metadata@),
    {
        DocumentNode {
            node_type,
            span,
            line_range,
            metadata,
            parent_name: None,
            parent_handle_id: None,
            parent_node_type: None,
            parent_span: None,
        }
    }
}

/// A reference (call, import, type usage) extracted from code.
#[derive(Debug)]
pub struct Reference {
    /// The unqualified name being referenced.
    pub name: String,
    /// Optional qualifier (such as a module path or an object name).
    pub qualifier: Option<String>,
    /// Type of reference.
    pub ref_type: RefType,
    /// Byte span of the reference in the source.
    pub span: Span,
    /// Line range, counted from one.
    pub line_range: (usize, usize),
}

/// The view of a [`Reference`].
pub struct ReferenceView {
    pub name: Seq<char>,
    pub qualifier: Option<Seq<char>>,
    pub ref_type: RefType,
    pub span: Span,
    pub line_range: (usize, usize),
}

impl View for Reference {
    type V = ReferenceView;

    open spec fn view(&self) -> ReferenceView {
        ReferenceView {
            name: self.name@,
            qualifier: text::opt_view(self.qualifier),
            ref_type: self.ref_type,
            span: self.span,
            line_range: self.line_range,
        }
    }
}

/// Parsed file with nodes and references.
#[derive(Debug)]
pub struct ParsedFile {
    pub path: String,
    pub source: String,
    pub content_hash: [u8; 32],
    pub nodes: Vec<DocumentNode>,
    pub refs: Vec<Reference>,
    pub total_tokens: usize,
    /// File modification time captured at read time (seconds since the epoch).
    pub mtime: i64,
}

} // verus!
