//! Reading a manifest: is it a single package or a workspace, and what is
//! the package called.
use vstd::prelude::*;

verus! {

/// The mathematical value of a manifest document or of a value in one.
/// Text, lists and tables keep their contents; every other value reads as
/// `Scalar`. A table is the sequence of its entries, each a key with its
/// value.
pub enum Node {
    Text(Seq<char>),
    List(Seq<Node>),
    Table(Seq<(Seq<char>, Node)>),
    Scalar,
}

/// A manifest document, or a value in one.
#[derive(Debug, PartialEq, Eq)]
pub enum ManifestDocument {
    /// A string.
    Text(String),
    /// An array of values.
    List(Vec<ManifestDocument>),
    /// A table: keys with their values.
    Table(Vec<(String, ManifestDocument)>),
    /// A number, a truth value or a date: nothing that is read here.
    Scalar,
}

/// The mathematical value of a document.
pub open spec fn node_of(document: ManifestDocument) -> Node
    decreases document,
{
    match document {
        ManifestDocument::Text(text) => Node::Text(text@),
        ManifestDocument::List(items) => Node::List(
            Seq::new(
                items@.len(),
                |i: int|
                    if 0 <= i < items@.len() {
                        node_of(items@[i])
                    } else {
                        Node::Scalar
                    },
            ),
        ),
        ManifestDocument::Table(entries) => Node::Table(
            Seq::new(
                entries@.len(),
                |i: int|
                    if 0 <= i < entries@.len() {
                        let entry = entries@[i];
                        (entry.0@, node_of(entry.1))
                    } else {
                        (Seq::empty(), Node::Scalar)
                    },
            ),
        ),
        ManifestDocument::Scalar => Node::Scalar,
    }
}

impl View for ManifestDocument {
    type V = Node;

    open spec fn view(&self) -> Node {
        node_of(*self)
    }
}

/// The value of the first of `entries` whose key is `key`.
pub open spec fn find(entries: Seq<(Seq<char>, Node)>, key: Seq<char>) -> Option<Node>
    decreases entries.len(),
{
    if entries.len() == 0 {
        None
    } else if entries[0].0 == key {
        Some(entries[0].1)
    } else {
        find(entries.drop_first(), key)
    }
}

/// The entry of `node` under `key`, where `node` is a table that has one.
pub open spec fn entry(node: Node, key: Seq<char>) -> Option<Node> {
    match node {
        Node::Table(entries) => find(entries, key),
        _ => None,
    }
}

/// `toml::Value`, a parsed document or a value in one. Nothing is known
/// of it but what `contents` says.
#[verifier::external_type_specification]
#[verifier::external_body]
pub struct ExValue(toml::Value);

/// `toml::de::Error`, the parser's complaint. Nothing is read from it.
#[verifier::external_type_specification]
#[verifier::external_body]
pub struct ExParseError(toml::de::Error);

/// What a value of the parser holds: the text of a string, the items of an
/// array in their order, the entries of a table in the order in which the
/// table hands them out.
pub uninterp spec fn contents(value: toml::Value) -> Node;

/// The document that the parser reads from `text`, if it accepts it.
pub uninterp spec fn parsed(text: Seq<char>) -> Option<Node>;

/// `toml::from_str` at `toml::Value`: the parser accepts `text` exactly when
/// `parsed` holds a document for it, and then returns that document.
#[verifier::external_body]
fn parse_document(text: &str) -> (r: Result<toml::Value, toml::de::Error>)
    ensures
        match r {
            Ok(value) => parsed(text@) == Some(contents(value)),
            Err(_) => parsed(text@) is None,
        },
{
    toml::from_str::<toml::Value>(text)
}

/// `toml::Value::as_str`: the text of a string value, nothing for any other.
#[verifier::external_body]
fn text_of<'a>(value: &'a toml::Value) -> (r: Option<&'a str>)
    ensures
        match r {
            Some(text) => contents(*value) == Node::Text(text@),
            None => !(contents(*value) is Text),
        },
{
    value.as_str()
}

/// `toml::Value::as_array`: the items of an array value in their order,
/// nothing for any other value.
#[verifier::external_body]
fn items_of<'a>(value: &'a toml::Value) -> (r: Option<&'a Vec<toml::Value>>)
    ensures
        match r {
            Some(items) => contents(*value) == Node::List(
                Seq::new(items@.len(), |i: int| contents(items@[i])),
            ),
            None => !(contents(*value) is List),
        },
{
    value.as_array()
}

/// `toml::Value::as_table` and `toml::value::Map::iter`: the entries of a
/// table value in the order of the iteration, nothing for any other value.
#[verifier::external_body]
fn entries_of<'a>(value: &'a toml::Value) -> (r: Option<Vec<(&'a String, &'a toml::Value)>>)
    ensures
        match r {
            Some(entries) => contents(*value) == Node::Table(
                Seq::new(entries@.len(), |i: int| (entries@[i].0@, contents(*entries@[i].1))),
            ),
            None => !(contents(*value) is Table),
        },
{
    value.as_table().map(|table| table.iter().collect())
}

/// Copies a value of the parser into a `ManifestDocument`.
fn value_of(value: &toml::Value) -> (r: ManifestDocument)
    ensures
        r@ == contents(*value),
    decreases contents(*value),
{
    if let Some(text) = text_of(value) {
        return ManifestDocument::Text(text.to_owned());
    }
    if let Some(items) = items_of(value) {
        let ghost nodes = contents(*value)->List_0;
        let mut list: Vec<ManifestDocument> = Vec::new();
        let mut i: usize = 0;
        while i < items.len()
            invariant
                0 <= i <= items.len(),
                contents(*value) == Node::List(nodes),
                nodes.len() == items.len(),
                forall|j: int| 0 <= j < items.len() ==> nodes[j] == contents(#[trigger] items@[j]),
                list@.len() == i,
                forall|j: int| 0 <= j < i ==> (#[trigger] list@[j])@ == nodes[j],
            decreases items.len() - i,
        {
            assert(decreases_to!(contents(*value) => contents(*value)->List_0));
            assert(decreases_to!(nodes => nodes[i as int]));
            list.push(value_of(&items[i]));
            i += 1;
        }
        let r = ManifestDocument::List(list);
        assert(r@->List_0 =~= nodes);
        return r;
    }
    if let Some(entries) = entries_of(value) {
        let ghost nodes = contents(*value)->Table_0;
        let mut table: Vec<(String, ManifestDocument)> = Vec::new();
        let mut i: usize = 0;
        while i < entries.len()
            invariant
                0 <= i <= entries.len(),
                contents(*value) == Node::Table(nodes),
                nodes.len() == entries.len(),
                forall|j: int|
                    0 <= j < entries.len() ==> nodes[j] == (
                        (#[trigger] entries@[j]).0@,
                        contents(*entries@[j].1),
                    ),
                table@.len() == i,
                forall|j: int|
                    0 <= j < i ==> ((#[trigger] table@[j]).0@, table@[j].1@) == nodes[j],
            decreases entries.len() - i,
        {
            assert(decreases_to!(contents(*value) => contents(*value)->Table_0));
            assert(decreases_to!(nodes => nodes[i as int]));
            assert(decreases_to!(nodes[i as int] => nodes[i as int].1));
            let key = entries[i].0.clone();
            let item = value_of(entries[i].1);
            table.push((key, item));
            i += 1;
        }
        let r = ManifestDocument::Table(table);
        assert(r@->Table_0 =~= nodes);
        return r;
    }
    ManifestDocument::Scalar
}

/// Why a manifest could not be interpreted.
#[derive(Clone, Copy, Debug, PartialEq, Eq, Structural)]
pub enum ManifestError {
    /// The text is no valid document, or a field has the wrong shape.
    Malformed,
    /// A required field is absent.
    MissingField,
}

/// The document that the text of a manifest holds, or `Malformed` where
/// the text is no valid document.
pub open spec fn document_of_text(text: Seq<char>) -> Result<Node, ManifestError> {
    match parsed(text) {
        Some(document) => Ok(document),
        None => Err(ManifestError::Malformed),
    }
}

/// Parses the text of a manifest.
pub fn parse_manifest(text: &str) -> (r: Result<ManifestDocument, ManifestError>)
    ensures
        match r {
            Ok(document) => document_of_text(text@) == Ok::<_, ManifestError>(document@),
            Err(e) => document_of_text(text@) == Err::<Node, _>(e),
        },
{
    match parse_document(text) {
        Ok(value) => Ok(value_of(&value)),
        Err(_) => Err(ManifestError::Malformed),
    }
}

impl ManifestDocument {
    /// Whether this is a table.
    pub fn is_table(&self) -> (r: bool)
        ensures
            r == (self@ is Table),
    {
        match self {
            ManifestDocument::Table(_) => true,
            _ => false,
        }
    }

    /// The value under `key`, where this is a table that holds the key;
    /// the first such value, should the key occur more than once.
    pub fn get(&self, key: &str) -> (r: Option<&ManifestDocument>)
        ensures
            match r {
                Some(found) => entry(self@, key@) == Some(found@),
                None => entry(self@, key@) is None,
            },
    {
        match self {
            ManifestDocument::Table(entries) => {
                let wanted = key.to_owned();
                let ghost nodes = self@->Table_0;
                let mut i: usize = 0;
                assert(nodes.skip(0) =~= nodes);
                while i < entries.len()
                    invariant
                        0 <= i <= entries.len(),
                        wanted@ == key@,
                        self@ == Node::Table(nodes),
                        nodes.len() == entries.len(),
                        forall|j: int|
                            0 <= j < entries.len() ==> nodes[j] == (
                                (#[trigger] entries@[j]).0@,
                                entries@[j].1@,
                            ),
                        find(nodes, key@) == find(nodes.skip(i as int), key@),
                    decreases entries.len() - i,
                {
                    assert(nodes.skip(i as int).drop_first() =~= nodes.skip(i + 1));
                    assert(nodes.skip(i as int)[0] == nodes[i as int]);
                    if entries[i].0 == wanted {
                        return Some(&entries[i].1);
                    }
                    i += 1;
                }
                None
            },
            _ => None,
        }
    }
}

/// What a root manifest declares.
#[derive(Debug, PartialEq, Eq)]
pub enum WorkspaceClassification {
    /// No workspace table: the manifest describes one package.
    SingleProject,
    /// A workspace table with at least one member pattern.
    Workspace { member_patterns: Vec<String> },
    /// A workspace table whose member list is absent or empty.
    WorkspaceNoMembers,
}

/// The mathematical value of a `WorkspaceClassification`.
pub enum Classification {
    SingleProject,
    Workspace { member_patterns: Seq<Seq<char>> },
    WorkspaceNoMembers,
}

impl View for WorkspaceClassification {
    type V = Classification;

    open spec fn view(&self) -> Classification {
        match self {
            WorkspaceClassification::SingleProject => Classification::SingleProject,
            WorkspaceClassification::Workspace { member_patterns } => Classification::Workspace {
                member_patterns: member_patterns.deep_view(),
            },
            WorkspaceClassification::WorkspaceNoMembers => Classification::WorkspaceNoMembers,
        }
    }
}

impl Classification {
    /// A workspace classification names at least one member pattern.
    pub open spec fn wf(self) -> bool {
        self matches Classification::Workspace { member_patterns } ==> member_patterns.len() > 0
    }
}

/// Every item of `items` is text.
pub open spec fn all_text(items: Seq<Node>) -> bool {
    forall|i: int| 0 <= i < items.len() ==> items[i] is Text
}

/// The texts of `items`, in their order.
pub open spec fn texts(items: Seq<Node>) -> Seq<Seq<char>> {
    Seq::new(items.len(), |i: int| items[i]->Text_0)
}

/// What the value under `members` of a workspace table declares.
pub open spec fn members_classification(members: Node) -> Result<Classification, ManifestError> {
    match members {
        Node::List(items) => if !all_text(items) {
            Err(ManifestError::Malformed)
        } else if items.len() == 0 {
            Ok(Classification::WorkspaceNoMembers)
        } else {
            Ok(Classification::Workspace { member_patterns: texts(items) })
        },
        _ => Err(ManifestError::Malformed),
    }
}

/// What a parsed root manifest declares.
pub open spec fn classification_of(document: Node) -> Result<Classification, ManifestError> {
    match entry(document, "workspace"@) {
        None => Ok(Classification::SingleProject),
        Some(workspace) => if !(workspace is Table) {
            Err(ManifestError::Malformed)
        } else {
            match entry(workspace, "members"@) {
                None => Ok(Classification::WorkspaceNoMembers),
                Some(members) => members_classification(members),
            }
        },
    }
}

/// What the text of a root manifest declares.
pub open spec fn classification_of_text(text: Seq<char>) -> Result<Classification, ManifestError> {
    match document_of_text(text) {
        Ok(document) => classification_of(document),
        Err(e) => Err(e),
    }
}

/// Reads the member patterns out of the value under `members`.
fn classify_members(members: &ManifestDocument) -> (r: Result<WorkspaceClassification, ManifestError>)
    ensures
        match r {
            Ok(c) => members_classification(members@) == Ok::<_, ManifestError>(c@),
            Err(e) => members_classification(members@) == Err::<Classification, _>(e),
        },
{
    let items = match members {
        ManifestDocument::List(items) => items,
        _ => {
            return Err(ManifestError::Malformed);
        },
    };
    let ghost nodes = members@->List_0;
    let mut member_patterns: Vec<String> = Vec::new();
    let mut i: usize = 0;
    while i < items.len()
        invariant
            0 <= i <= items.len(),
            members@ == Node::List(nodes),
            nodes.len() == items.len(),
            forall|j: int| 0 <= j < items.len() ==> nodes[j] == (#[trigger] items@[j])@,
            all_text(nodes.take(i as int)),
            member_patterns.deep_view() == texts(nodes.take(i as int)),
        decreases items.len() - i,
    {
        match &items[i] {
            ManifestDocument::Text(pattern) => {
                let ghost before = member_patterns.deep_view();
                member_patterns.push(pattern.clone());
                assert(nodes.take(i + 1) =~= nodes.take(i as int).push(nodes[i as int]));
                assert(member_patterns.deep_view() =~= before.push(pattern@));
                assert(member_patterns.deep_view() =~= texts(nodes.take(i + 1)));
            },
            _ => {
                assert(!(nodes[i as int] is Text));
                return Err(ManifestError::Malformed);
            },
        }
        i += 1;
    }
    assert(nodes.take(i as int) == nodes);
    if member_patterns.len() == 0 {
        Ok(WorkspaceClassification::WorkspaceNoMembers)
    } else {
        Ok(WorkspaceClassification::Workspace { member_patterns })
    }
}

/// Classifies a parsed root manifest.
pub fn classify_document(document: &ManifestDocument) -> (r: Result<WorkspaceClassification, ManifestError>)
    ensures
        match r {
            Ok(c) => classification_of(document@) == Ok::<_, ManifestError>(c@),
            Err(e) => classification_of(document@) == Err::<Classification, _>(e),
        },
        r matches Ok(c) ==> c@.wf(),
{
    let workspace = match document.get("workspace") {
        None => {
            return Ok(WorkspaceClassification::SingleProject);
        },
        Some(workspace) => workspace,
    };
    if !workspace.is_table() {
        return Err(ManifestError::Malformed);
    }
    match workspace.get("members") {
        None => Ok(WorkspaceClassification::WorkspaceNoMembers),
        Some(members) => classify_members(members),
    }
}

/// Classifies the text of a root manifest.
pub fn classify(document_text: &str) -> (r: Result<WorkspaceClassification, ManifestError>)
    ensures
        match r {
            Ok(c) => classification_of_text(document_text@) == Ok::<_, ManifestError>(c@),
            Err(e) => classification_of_text(document_text@) == Err::<Classification, _>(e),
        },
        r matches Ok(c) ==> c@.wf(),
{
    match parse_manifest(document_text) {
        Err(e) => Err(e),
        Ok(document) => classify_document(&document),
    }
}

/// The identity of one package: its declared name and the directory that
/// holds its manifest.
#[derive(Debug, PartialEq, Eq)]
pub struct PackageDescriptor {
    pub name: String,
    pub directory: String,
}

/// The mathematical value of a `PackageDescriptor`.
pub struct Package {
    pub name: Seq<char>,
    pub directory: Seq<char>,
}

impl View for PackageDescriptor {
    type V = Package;

    open spec fn view(&self) -> Package {
        Package { name: self.name@, directory: self.directory@ }
    }
}

impl Clone for PackageDescriptor {
    fn clone(&self) -> (r: Self)
        ensures
            r@ == self@,
    {
        PackageDescriptor { name: self.name.clone(), directory: self.directory.clone() }
    }
}

/// The package name that a parsed manifest declares.
pub open spec fn declared_name(document: Node) -> Result<Seq<char>, ManifestError> {
    match entry(document, "package"@) {
        None => Err(ManifestError::MissingField),
        Some(package) => if !(package is Table) {
            Err(ManifestError::Malformed)
        } else {
            match entry(package, "name"@) {
                None => Err(ManifestError::MissingField),
                Some(Node::Text(name)) => Ok(name),
                Some(_) => Err(ManifestError::Malformed),
            }
        },
    }
}

/// The package that a parsed manifest found in `directory` describes.
pub open spec fn package_of(document: Node, directory: Seq<char>) -> Result<
    Package,
    ManifestError,
> {
    match declared_name(document) {
        Ok(name) => Ok(Package { name, directory }),
        Err(e) => Err(e),
    }
}

/// The package that the manifest text found in `directory` describes.
pub open spec fn package_of_text(text: Seq<char>, directory: Seq<char>) -> Result<
    Package,
    ManifestError,
> {
    match document_of_text(text) {
        Ok(document) => package_of(document, directory),
        Err(e) => Err(e),
    }
}

/// Extracts the package that a parsed manifest found in `directory`
/// describes.
pub fn package_of_document(document: &ManifestDocument, directory: &str) -> (r: Result<
    PackageDescriptor,
    ManifestError,
>)
    ensures
        match r {
            Ok(p) => package_of(document@, directory@) == Ok::<_, ManifestError>(p@),
            Err(e) => package_of(document@, directory@) == Err::<Package, _>(e),
        },
{
    let package = match document.get("package") {
        None => {
            return Err(ManifestError::MissingField);
        },
        Some(package) => package,
    };
    if !package.is_table() {
        return Err(ManifestError::Malformed);
    }
    match package.get("name") {
        None => Err(ManifestError::MissingField),
        Some(ManifestDocument::Text(name)) => Ok(
            PackageDescriptor { name: name.clone(), directory: directory.to_owned() },
        ),
        Some(_) => Err(ManifestError::Malformed),
    }
}

/// Extracts the package that the manifest text found in `directory`
/// describes.
pub fn parse_package(document_text: &str, directory: &str) -> (r: Result<
    PackageDescriptor,
    ManifestError,
>)
    ensures
        match r {
            Ok(p) => package_of_text(document_text@, directory@) == Ok::<_, ManifestError>(p@),
            Err(e) => package_of_text(document_text@, directory@) == Err::<Package, _>(e),
        },
{
    match parse_manifest(document_text) {
        Err(e) => Err(e),
        Ok(document) => package_of_document(&document, directory),
    }
}

/// A manifest that cannot be parsed is malformed; any other is classified,
/// and describes its package, as the document that it holds.
pub proof fn lemma_text_goes_by_its_document(text: Seq<char>, directory: Seq<char>)
    ensures
        match parsed(text) {
            Some(document) => {
                &&& classification_of_text(text) == classification_of(document)
                &&& package_of_text(text, directory) == package_of(document, directory)
            },
            None => {
                &&& classification_of_text(text) == Err::<Classification, _>(
                    ManifestError::Malformed,
                )
                &&& package_of_text(text, directory) == Err::<Package, _>(ManifestError::Malformed)
            },
        },
{
}

/// A manifest without a `workspace` entry is a single project, and where it
/// declares a package name, that name is the name of the package read
/// from it.
pub proof fn lemma_single_project(
    document: Node,
    package: Node,
    name: Seq<char>,
    directory: Seq<char>,
)
    requires
        entry(document, "workspace"@) is None,
        entry(document, "package"@) == Some(package),
        package is Table,
        entry(package, "name"@) == Some(Node::Text(name)),
    ensures
        classification_of(document) == Ok::<_, ManifestError>(Classification::SingleProject),
        package_of(document, directory) == Ok::<_, ManifestError>(Package { name, directory }),
{
}

/// A workspace table without a `members` entry, or with an empty list
/// under it, is a workspace without members.
pub proof fn lemma_workspace_without_members(document: Node, workspace: Node)
    requires
        entry(document, "workspace"@) == Some(workspace),
        workspace is Table,
        entry(workspace, "members"@) is None || entry(workspace, "members"@) == Some(
            Node::List(Seq::empty()),
        ),
    ensures
        classification_of(document) == Ok::<_, ManifestError>(Classification::WorkspaceNoMembers),
{
}

/// A workspace table with a non-empty list of texts under `members` is a
/// workspace whose member patterns are those texts, in the order declared.
pub proof fn lemma_workspace_members(document: Node, workspace: Node, items: Seq<Node>)
    requires
        entry(document, "workspace"@) == Some(workspace),
        workspace is Table,
        entry(workspace, "members"@) == Some(Node::List(items)),
        all_text(items),
        items.len() > 0,
    ensures
        classification_of(document) == Ok::<_, ManifestError>(
            Classification::Workspace { member_patterns: texts(items) },
        ),
        texts(items).len() == items.len(),
        forall|i: int|
            0 <= i < items.len() ==> Node::Text(#[trigger] texts(items)[i]) == items[i],
{
}

/// A manifest is malformed exactly where its `workspace` entry is no table,
/// or the `members` entry of that table is no list of texts.
pub proof fn lemma_malformed_workspace(document: Node)
    ensures
        classification_of(document) is Err <==> (entry(document, "workspace"@) matches Some(
            workspace,
        ) && (!(workspace is Table) || (entry(workspace, "members"@) matches Some(members)
            && !(members matches Node::List(items) && all_text(items))))),
        classification_of(document) matches Err(e) ==> e == ManifestError::Malformed,
{
}

/// Whatever the manifest, a classification as workspace names at least one
/// member pattern.
pub proof fn lemma_classification_wf(document: Node)
    ensures
        classification_of(document) matches Ok(c) ==> c.wf(),
{
}

} // verus!
