//! The schema builder: the base schema document, the fragment of properties
//! that every interface-bearing category shares, and the merge of the latter
//! into each category's closed object schema.
//!
//! Reference-based reuse of a definition does not combine with
//! `additionalProperties: false` in draft 7: the referenced properties stay
//! invisible to the closedness check, so unknown keys would pass. The shared
//! properties are therefore copied into each insertion point before the
//! document is compiled.

use vstd::prelude::*;
use vstd::string::*;
use crate::external::{compile_draft7, draft7_compile_error, parse_yaml, yaml_tree};
use crate::tree::{
    entries_view, last_index, last_key, lemma_entries_view, merge_fields, merged_view, Tree,
    TreeView,
};

verus! {

/// The base schema document, in YAML: every category of interface is a closed
/// object whose insertion point holds only its own properties.
pub const SCHEMA: &'static str = r#"
$schema: "https://json-schema.org/draft-7"
title: Netplan Network Definition
description: "Representation of a Netplan network definition"
type: object
required:
  - network
additionalProperties: false
properties:
  network:
    type: object
    additionalProperties: false
    properties:
      # network.version
      version:
        type: integer
        maximum: 2
        minimum: 2

      # network.renderer
      renderer:
        $ref: /schemas/renderer

      # network.ethernets
      ethernets:
        type: object
        properties:
          renderer:
            $ref: /schemas/renderer

        patternProperties:
          # network.ethernets.<interface>
          ".*$":
            additionalProperties: false
            properties:
              link:
                type: string
              virtual-function-count:
                type: integer
                minimum: 0
              embedded-switch-mode:
                type: string
                enum: [switchdev, legacy]
              delay-virtual-functions-rebind:
                type: boolean
              infiniband-mode:
                type: string
                enum: [datagram, connected]

      vlans:
        type: object
        properties:
          renderer:
            $ref: /schemas/renderer

        patternProperties:
          # network.vlans.<interface>
          ".*$":
            additionalProperties: false
            properties:
              id:
                type: integer
              link:
                type: string

      bridges:
        type: object
        properties:
          renderer:
            $ref: /schemas/renderer

        patternProperties:
          # network.bridges.<interface>
          ".*$":
            additionalProperties: false
            properties:
              interfaces:
                type: array
                uniqueItems: true
                items:
                  type: string
              parameters:
                type: object
                additionalProperties: false
                properties:
                  ageing-time:
                    type: string
                  aging-time:
                    type: string
                  priority:
                    type: integer
                    minimum: 0
                    maximum: 65535
                  port-priority:
                    type: integer
                    minimum: 0
                    maximum: 63
                  forward-delay:
                    type: string
                  hello-time:
                    type: string
                  max-age:
                    type: string
                  path-cost:
                    type: integer
                  stp:
                    type: boolean
      modems:
        type: object
        properties:
          renderer:
            $ref: /schemas/renderer

        patternProperties:
          # network.modems.<interface>
          ".*$":
            additionalProperties: false
            properties: {}

      bonds:
        type: object
        properties:
          renderer:
            $ref: /schemas/renderer

        patternProperties:
          # network.bonds.<interface>
          ".*$":
            additionalProperties: false
            properties: {}

      tunnels:
        type: object
        properties:
          renderer:
            $ref: /schemas/renderer

        patternProperties:
          # network.tunnels.<interface>
          ".*$":
            additionalProperties: false
            properties: {}

      vrfs:
        type: object
        properties:
          renderer:
            $ref: /schemas/renderer

        patternProperties:
          # network.vrfs.<interface>
          ".*$":
            additionalProperties: false
            properties: {}

      wifis:
        type: object
        properties:
          renderer:
            $ref: /schemas/renderer

        patternProperties:
          # network.wifis.<interface>
          ".*$":
            type: object
            additionalProperties: false
            properties: 
              access-points:
                type: object
                patternProperties:
                  ".*$":
                    type: object
                    additionalProperties: false
                    properties:
                      password:
                        type: string
                      mode:
                        type: string
                        enum: [infrastructure, ap, adhoc]
                      bssid:
                        type: string
                      band:
                        type: string
                        enum: [5GHz, 2.4GHz]
                      channel:
                        type: integer
                      hidden:
                        type: boolean
                      auth:
                        type: object
                        additionalProperties: false
                        properties:
                          key-management:
                            type: string
                            enum: [none, psk, eap]
                          password:
                            type: string
                          method:
                            type: string
                            enum: [tls, peap, ttls]
                          identity:
                            type: string
                          anonymous-identity:
                            type: string
                          ca-certificate:
                            type: string
                          client-certificate:
                            type: string
                          client-key:
                            type: string
                          client-key-password:
                            type: string
                          phase2-auth:
                            type: string


      nm-devices:
        type: object
        properties:
          renderer:
            $ref: /schemas/renderer

        patternProperties:
          # network.nm-devices.<interface>
          ".*$":
            additionalProperties: false
            properties: {}
           

$defs:
  renderer:
    $id: /schemas/renderer
    "$schema": "http://json-schema.org/draft-07/schema#"
    type: string
    enum: [networkd, NetworkManager, sriov]
"#;

/// The properties shared by the interface-bearing categories, in YAML.
pub const COMMON_PROPERTIES: &'static str = r#"
renderer:
  $ref: /schemas/renderer

# network.ethernets.<interface>.dhcp4
dhcp4:
  type: boolean

dhcp6:
  type: boolean

ipv6-mtu:
  type: integer
  minimum: 0

ipv6-privacy:
  type: boolean

link-local:
  type: array
  uniqueItems: true
  items:
    type: string
    enum: [ ipv4, ipv6]

ignore-carrier:
  type: boolean

critical:
  type: boolean

dhcp-identifier:
  type: string
  enum: [duid, mac]

dhcp4-overrides:
  type: object
  additionalProperties: false
  properties:
    use-dns:
      type: boolean
    use-ntp:
      type: boolean
    send-hostname:
      type: boolean
    use-hostname:
      type: boolean
    use-mtu:
      type: boolean
    hostname:
      type: string
    use-routes:
      type: boolean
    route-metric:
      type: integer
    use-domains:
      type: boolean
  
dhcp6-overrides:
  type: object
  additionalProperties: false
  properties:
    use-dns:
      type: boolean
    use-ntp:
      type: boolean
    send-hostname:
      type: boolean
    use-hostname:
      type: boolean
    use-mtu:
      type: boolean
    hostname:
      type: string
    use-routes:
      type: boolean
    route-metric:
      type: integer
    use-domains:
      type: boolean

accept-ra:
  type: boolean

addresses:
  type: array
  uniqueItems: true
  items:
    anyOf:
      - type: object
        patternProperties:
          ".*$":
            type: object
            additionalProperties: false
            properties:
              lifetime:
                type: string
                enum: [forever, 0]
              label:
                type: string
                maxLength: 15
      - type: string
        pattern: .*$

ipv6-address-generation:
  type: string
  enum: [eui64, stable-privacy]
ipv6-address-token:
  type: string
    
gateway4:
  type: string
  format: ipv4

gateway6:
  type: string
  format: ipv6

nameservers:
  type: object
  additionalProperties: false
  properties:
    search:
      type: array
      items:
        type: string
    addresses:
      type: array
      items:
        type: string

macaddress:
  type: string
  pattern: ([0-9a-f]{2}):([0-9a-f]{2}):([0-9a-f]{2}):([0-9a-f]{2}):([0-9a-f]{2}):([0-9a-f]{2})

mtu:
  type: integer
  minimum: 0

optional:
  type: boolean

optional-addresses:
  type: array
  items:
    type: string
    enum: [ipv4-ll, ipv6-ra, dhcp4, dhcp6, static]

activation-mode:
  type: string
  enum: [manual, off]

routes:
  type: array
  items:
    type: object
    additionalProperties: false
    properties:
      from:
        type: string
      to:
        type: string
      via:
        type: string
      on-link:
        type: boolean
      metric:
        type: integer
        minimum: 0
      type:
        type: string
        enum: [unicast, anycast, blackhole, broadcast, local, multicast, nat, prohibit, throw, unreachable, xresolve]
      scope:
        type: string
        enum: [global, link, host]
      table:
        type: integer
        minimum: 0
      mtu:
        type: integer
        minimum: 0
      congestion-window:
        type: integer
        minimum: 0
      advertised-receive-window:
        type: integer
        minimum: 0

routing-policy:
  type: object
  additionalProperties: false
  properties:
    from:
      type: string
    to:
      type: string
    table:
      type: integer
      minimum: 0
    priority:
      type: integer
    mark:
      type: integer
      minimum: 1
    type-of-service:
      type: integer

neigh-suppress:
  type: boolean

match:
  type: object
  additionalProperties: false
  properties:
    name:
      type: string
    driver:
      type: string
    macaddress:
      type: string
      pattern: ([0-9a-f]{2}):([0-9a-f]{2}):([0-9a-f]{2}):([0-9a-f]{2}):([0-9a-f]{2}):([0-9a-f]{2})
    

"#;

/// The report of a build whose literal documents do not read as it needs.
pub const UNREADABLE_DOCUMENTS: &'static str = "the built-in schema documents do not read as YAML mappings";

/// Where the shared properties go for `category`: the `properties` mapping of
/// the wildcard entry that describes each interface of the category.
pub open spec fn insertion_point(category: Seq<char>) -> Seq<Seq<char>> {
    seq![
        "properties"@,
        "network"@,
        "properties"@,
        category,
        "patternProperties"@,
        ".*$"@,
        "properties"@,
    ]
}

/// The categories that receive the shared properties, in the order they are patched.
pub open spec fn patched_categories() -> Seq<Seq<char>> {
    seq!["ethernets"@, "vlans"@, "bridges"@, "wifis"@, "bonds"@, "tunnels"@, "vrfs"@]
}

/// The keys of a path written as strings.
pub open spec fn keys_of(path: Seq<String>) -> Seq<Seq<char>> {
    path.map_values(|s: String| s@)
}

/// The bindings of the shared fragment, when it reads as a mapping.
pub open spec fn shared_properties() -> Option<Seq<(String, Tree)>> {
    match yaml_tree(COMMON_PROPERTIES@) {
        Some(Tree::Mapping(entries)) => Some(entries@),
        _ => None,
    }
}

/// Whether both literal documents read as the builder needs them.
pub open spec fn documents_read() -> bool {
    yaml_tree(SCHEMA@) is Some && shared_properties() is Some
}

/// `t` with the bindings of `extra` set, in turn, in the mapping that `path`
/// leads to through the last binding of each key. Where the path leads nowhere,
/// or to something other than a mapping, `t` is left as it is.
pub open spec fn patch_view(
    t: TreeView,
    path: Seq<Seq<char>>,
    extra: Seq<(Seq<char>, TreeView)>,
) -> TreeView
    decreases path.len(),
{
    match t {
        TreeView::Mapping(entries) => {
            if path.len() == 0 {
                TreeView::Mapping(merged_view(entries, extra))
            } else {
                let j = last_key(entries, path[0]);
                if j < 0 {
                    t
                } else {
                    TreeView::Mapping(
                        entries.update(
                            j,
                            (entries[j].0, patch_view(entries[j].1, path.drop_first(), extra)),
                        ),
                    )
                }
            }
        },
        _ => t,
    }
}

/// `t` patched at the insertion point of each of `categories`, in order.
pub open spec fn patch_categories_view(
    t: TreeView,
    categories: Seq<Seq<char>>,
    extra: Seq<(Seq<char>, TreeView)>,
) -> TreeView
    decreases categories.len(),
{
    if categories.len() == 0 {
        t
    } else {
        patch_view(
            patch_categories_view(t, categories.drop_last(), extra),
            insertion_point(categories.last()),
            extra,
        )
    }
}

/// The schema document, as the two literal documents read determine it.
pub open spec fn schema_view() -> TreeView {
    patch_categories_view(
        yaml_tree(SCHEMA@)->Some_0@,
        patched_categories(),
        entries_view(shared_properties()->Some_0),
    )
}

/// Merges `extra` into the mapping that `path[depth..]` leads to inside `tree`.
fn patch_at(tree: Tree, path: &Vec<String>, depth: usize, extra: Vec<(String, Tree)>) -> (r: Tree)
    requires
        depth <= path@.len(),
    ensures
        r@ == patch_view(
            tree@,
            keys_of(path@).subrange(depth as int, path@.len() as int),
            entries_view(extra@),
        ),
    decreases path@.len() - depth,
{
    let ghost keys = keys_of(path@).subrange(depth as int, path@.len() as int);
    match tree {
        Tree::Mapping(entries) => {
            let mut entries = entries;
            let ghost before = entries@;
            if depth == path.len() {
                merge_fields(&mut entries, extra);
                Tree::Mapping(entries)
            } else {
                assert(keys[0] == path@[depth as int]@);
                match last_index(&entries, &path[depth]) {
                    Some(j) => {
                        let (key, child) = entries.remove(j);
                        let patched = patch_at(child, path, depth + 1, extra);
                        let ghost e = (key, patched);
                        entries.insert(j, (key, patched));
                        proof {
                            assert(entries@ =~= before.update(j as int, e));
                            lemma_entries_view(before);
                            lemma_entries_view(entries@);
                            assert(entries_view(entries@) =~= entries_view(before).update(
                                j as int,
                                (key@, patched@),
                            ));
                            assert(keys.drop_first() =~= keys_of(path@).subrange(
                                depth + 1,
                                path@.len() as int,
                            ));
                        }
                        Tree::Mapping(entries)
                    },
                    None => Tree::Mapping(entries),
                }
            }
        },
        other => other,
    }
}

/// Why jsonschema refused the assembled document: where in the schema, what
/// kind of failure, and where in the instance.
pub struct CompileError {
    pub schema_path: String,
    pub kind: String,
    pub instance_path: String,
}

/// The report of a compile error with the given schema path, kind and
/// instance path: the three, in that order, separated by a comma and a space.
pub open spec fn compile_report(parts: (Seq<char>, Seq<char>, Seq<char>)) -> Seq<char> {
    parts.0 + ", "@ + parts.1 + ", "@ + parts.2
}

impl CompileError {
    /// The report of this error: see `compile_report`.
    pub open spec fn text(&self) -> Seq<char> {
        compile_report((self.schema_path@, self.kind@, self.instance_path@))
    }

    /// The report of the failure: see `text`.
    pub fn message(&self) -> (r: String)
        ensures
            r@ == self.text(),
    {
        let mut m = self.schema_path.clone();
        m.append(", ");
        m.append(self.kind.as_str());
        m.append(", ");
        m.append(self.instance_path.as_str());
        m
    }
}

/// The insertion point of `category`, written as strings.
fn insertion_path(category: &str) -> (r: Vec<String>)
    ensures
        keys_of(r@) == insertion_point(category@),
{
    let r = vec![
        String::from_str("properties"),
        String::from_str("network"),
        String::from_str("properties"),
        String::from_str(category),
        String::from_str("patternProperties"),
        String::from_str(".*$"),
        String::from_str("properties"),
    ];
    assert(keys_of(r@) =~= insertion_point(category@));
    r
}

/// Reads the base document and merges a fresh copy of the shared properties
/// into the insertion point of each patched category. `None` where either
/// literal does not read as the builder needs it.
pub fn schema_document() -> (r: Option<Tree>)
    ensures
        r is Some == documents_read(),
        r matches Some(doc) ==> doc@ == schema_view(),
{
    let categories: Vec<&str> = vec!["ethernets", "vlans", "bridges", "wifis", "bonds", "tunnels", "vrfs"];
    assert(categories@.map_values(|c: &str| c@) =~= patched_categories());
    let mut doc = match parse_yaml(SCHEMA) {
        Some(doc) => doc,
        None => return None,
    };
    let ghost base = doc;
    let mut i: usize = 0;
    while i < categories.len()
        invariant
            i <= categories@.len(),
            categories@.map_values(|c: &str| c@) == patched_categories(),
            yaml_tree(SCHEMA@) == Some(base),
            i > 0 ==> shared_properties() is Some,
            doc@ == patch_categories_view(
                base@,
                patched_categories().subrange(0, i as int),
                entries_view(shared_properties()->Some_0),
            ),
        decreases categories@.len() - i,
    {
        // Each category receives its own copy of the fragment.
        let extra = match parse_yaml(COMMON_PROPERTIES) {
            Some(Tree::Mapping(entries)) => entries,
            _ => return None,
        };
        assert(shared_properties() == Some(extra@));
        let path = insertion_path(categories[i]);
        doc = patch_at(doc, &path, 0, extra);
        proof {
            let done = patched_categories().subrange(0, i as int);
            let next = patched_categories().subrange(0, i + 1);
            assert(next.last() == categories@[i as int]@);
            assert(keys_of(path@).subrange(0, path@.len() as int) =~= keys_of(path@));
            assert(next.drop_last() =~= done);
        }
        i = i + 1;
    }
    proof {
        assert(patched_categories().subrange(0, 7) =~= patched_categories());
    }
    Some(doc)
}

/// A compiled draft 7 schema, together with the document it was compiled from.
pub struct Schema {
    pub(crate) compiled: jsonschema::JSONSchema,
    pub(crate) source: Ghost<TreeView>,
}

impl Schema {
    /// The document this schema was compiled from.
    pub closed spec fn document(&self) -> TreeView {
        self.source@
    }
}

/// Assembles the schema document and compiles it as draft 7. Any failure is
/// fatal to the caller: no partially patched schema is ever handed out.
pub fn build_schema() -> (r: Result<Schema, String>)
    ensures
        !documents_read() ==> (r matches Err(m) && m@ == UNREADABLE_DOCUMENTS@),
        documents_read() ==> match r {
            Ok(s) => draft7_compile_error(schema_view()) is None && s.document() == schema_view(),
            Err(m) => draft7_compile_error(schema_view()) matches Some(parts) && m@ == compile_report(
                parts,
            ),
        },
{
    match schema_document() {
        None => Err(String::from_str(UNREADABLE_DOCUMENTS)),
        Some(doc) => match compile_draft7(&doc) {
            Ok(compiled) => Ok(Schema { compiled, source: Ghost(doc@) }),
            Err(e) => Err(e.message()),
        },
    }
}

proof fn lemma_categories_distinct()
    ensures
        forall|a: int, b: int|
            0 <= a < b < patched_categories().len() ==> patched_categories()[a]
                != patched_categories()[b],
{
    reveal_strlit("ethernets");
    reveal_strlit("vlans");
    reveal_strlit("bridges");
    reveal_strlit("wifis");
    reveal_strlit("bonds");
    reveal_strlit("tunnels");
    reveal_strlit("vrfs");
    let c = patched_categories();
    assert forall|a: int, b: int| 0 <= a < b < c.len() implies c[a] != c[b] by {
        if c[a] == c[b] {
            assert(c[a].len() == c[b].len());
            assert(c[a][0] == c[b][0]);
        }
    }
}

/// The subtree that `path` leads to from `t`, through the last binding of each key.
pub open spec fn at_view(t: TreeView, path: Seq<Seq<char>>) -> Option<TreeView>
    decreases path.len(),
{
    if path.len() == 0 {
        Some(t)
    } else {
        match t {
            TreeView::Mapping(entries) => {
                let j = last_key(entries, path[0]);
                if j < 0 {
                    None
                } else {
                    at_view(entries[j].1, path.drop_first())
                }
            },
            _ => None,
        }
    }
}

/// `other` leaves `path` at some position: both agree before it and differ there.
pub open spec fn leaves(path: Seq<Seq<char>>, other: Seq<Seq<char>>) -> bool {
    exists|i: int|
        #![trigger other[i], path[i]]
        {
            &&& 0 <= i < path.len()
            &&& i < other.len()
            &&& other[i] != path[i]
            &&& forall|j: int| 0 <= j < i ==> other[j] == path[j]
        }
}

proof fn lemma_last_key_same_keys(
    entries: Seq<(Seq<char>, TreeView)>,
    j: int,
    value: TreeView,
    key: Seq<char>,
)
    requires
        0 <= j < entries.len(),
    ensures
        last_key(entries.update(j, (entries[j].0, value)), key) == last_key(entries, key),
    decreases entries.len(),
{
    let u = entries.update(j, (entries[j].0, value));
    if j < entries.len() - 1 {
        lemma_last_key_same_keys(entries.drop_last(), j, value, key);
        assert(u.drop_last() =~= entries.drop_last().update(j, (entries[j].0, value)));
    } else {
        assert(u.drop_last() =~= entries.drop_last());
    }
}

proof fn lemma_patch_view_elsewhere(
    t: TreeView,
    path: Seq<Seq<char>>,
    other: Seq<Seq<char>>,
    i: int,
    extra: Seq<(Seq<char>, TreeView)>,
)
    requires
        0 <= i < path.len(),
        i < other.len(),
        other[i] != path[i],
        forall|j: int| 0 <= j < i ==> other[j] == path[j],
    ensures
        at_view(patch_view(t, path, extra), other) == at_view(t, other),
    decreases i,
{
    if let TreeView::Mapping(entries) = t {
        let j = last_key(entries, path[0]);
        crate::tree::lemma_last_key_in_range(entries, path[0]);
        if j >= 0 {
            let patched = patch_view(entries[j].1, path.drop_first(), extra);
            lemma_last_key_same_keys(entries, j, patched, other[0]);
            crate::tree::lemma_last_key_in_range(entries, other[0]);
            if i > 0 {
                assert(other[0] == path[0]);
                assert forall|m: int| 0 <= m < i - 1 implies other.drop_first()[m]
                    == path.drop_first()[m] by {
                    assert(other[m + 1] == path[m + 1]);
                }
                lemma_patch_view_elsewhere(
                    entries[j].1,
                    path.drop_first(),
                    other.drop_first(),
                    i - 1,
                    extra,
                );
            }
        }
    }
}

proof fn lemma_categories_elsewhere(
    t: TreeView,
    categories: Seq<Seq<char>>,
    other: Seq<Seq<char>>,
    extra: Seq<(Seq<char>, TreeView)>,
)
    requires
        forall|n: int| 0 <= n < categories.len() ==> leaves(insertion_point(#[trigger] categories[n]), other),
    ensures
        at_view(patch_categories_view(t, categories, extra), other) == at_view(t, other),
    decreases categories.len(),
{
    if categories.len() > 0 {
        let front = categories.drop_last();
        assert forall|n: int| 0 <= n < front.len() implies leaves(insertion_point(#[trigger] front[n]), other) by {
            assert(front[n] == categories[n]);
        }
        lemma_categories_elsewhere(t, front, other, extra);
        let p = insertion_point(categories.last());
        assert(leaves(insertion_point(categories[categories.len() - 1]), other));
        let i = choose|i: int|
            #![trigger other[i], p[i]]
            {
                &&& 0 <= i < p.len()
                &&& i < other.len()
                &&& other[i] != p[i]
                &&& forall|j: int| 0 <= j < i ==> other[j] == p[j]
            };
        lemma_patch_view_elsewhere(patch_categories_view(t, front, extra), p, other, i, extra);
    }
}

/// The path of the schema of `category` itself: `network.<category>`.
pub open spec fn category_path(category: Seq<char>) -> Seq<Seq<char>> {
    seq!["properties"@, "network"@, "properties"@, category]
}

/// The path of the schema of each interface entry of `category`.
pub open spec fn entry_path(category: Seq<char>) -> Seq<Seq<char>> {
    seq!["properties"@, "network"@, "properties"@, category, "patternProperties"@, ".*$"@]
}

/// A category outside the patched ones (modems, nm-devices) stands in the
/// schema document exactly as in the base document.
pub proof fn lemma_other_categories_kept(category: Seq<char>)
    requires
        !patched_categories().contains(category),
    ensures
        at_view(schema_view(), category_path(category)) == at_view(
            yaml_tree(SCHEMA@)->Some_0@,
            category_path(category),
        ),
{
    let cats = patched_categories();
    let q = category_path(category);
    assert forall|n: int| 0 <= n < cats.len() implies leaves(insertion_point(#[trigger] cats[n]), q) by {
        let p = insertion_point(cats[n]);
        assert(q[3] != p[3]);
        assert(forall|j: int| 0 <= j < 3 ==> q[j] == p[j]);
    }
    lemma_categories_elsewhere(
        yaml_tree(SCHEMA@)->Some_0@,
        cats,
        q,
        entries_view(shared_properties()->Some_0),
    );
}

/// The interface entry of each patched category keeps, in the schema document,
/// every key but `properties` as the base document has it; its
/// `additionalProperties` among them, so the entry stays closed.
pub proof fn lemma_entries_stay_closed(category: Seq<char>, key: Seq<char>)
    requires
        patched_categories().contains(category),
        key != "properties"@,
    ensures
        at_view(schema_view(), entry_path(category).push(key)) == at_view(
            yaml_tree(SCHEMA@)->Some_0@,
            entry_path(category).push(key),
        ),
{
    let cats = patched_categories();
    let q = entry_path(category).push(key);
    lemma_categories_distinct();
    assert forall|n: int| 0 <= n < cats.len() implies leaves(insertion_point(#[trigger] cats[n]), q) by {
        let p = insertion_point(cats[n]);
        if cats[n] == category {
            assert(q[6] != p[6]);
            assert(forall|j: int| 0 <= j < 6 ==> q[j] == p[j]);
        } else {
            assert(q[3] != p[3]);
            assert(forall|j: int| 0 <= j < 3 ==> q[j] == p[j]);
        }
    }
    lemma_categories_elsewhere(
        yaml_tree(SCHEMA@)->Some_0@,
        cats,
        q,
        entries_view(shared_properties()->Some_0),
    );
}

/// What patching the point `before` with `extra` leaves there: a mapping gets
/// the bindings of `extra` set over its own, anything else stays as it is.
pub open spec fn point_after(
    before: Option<TreeView>,
    extra: Seq<(Seq<char>, TreeView)>,
) -> Option<TreeView> {
    match before {
        Some(TreeView::Mapping(entries)) => Some(TreeView::Mapping(merged_view(entries, extra))),
        _ => before,
    }
}

proof fn lemma_patch_view_here(t: TreeView, path: Seq<Seq<char>>, extra: Seq<(Seq<char>, TreeView)>)
    ensures
        at_view(patch_view(t, path, extra), path) == point_after(at_view(t, path), extra),
    decreases path.len(),
{
    if path.len() > 0 {
        if let TreeView::Mapping(entries) = t {
            let j = last_key(entries, path[0]);
            crate::tree::lemma_last_key_in_range(entries, path[0]);
            if j >= 0 {
                let patched = patch_view(entries[j].1, path.drop_first(), extra);
                lemma_last_key_same_keys(entries, j, patched, path[0]);
                lemma_patch_view_here(entries[j].1, path.drop_first(), extra);
            }
        }
    }
}

proof fn lemma_categories_here(
    t: TreeView,
    categories: Seq<Seq<char>>,
    m: int,
    extra: Seq<(Seq<char>, TreeView)>,
)
    requires
        0 <= m < categories.len(),
        forall|a: int, b: int| 0 <= a < b < categories.len() ==> categories[a] != categories[b],
    ensures
        at_view(patch_categories_view(t, categories, extra), insertion_point(categories[m]))
            == point_after(at_view(t, insertion_point(categories[m])), extra),
    decreases categories.len(),
{
    let front = categories.drop_last();
    let p = insertion_point(categories[m]);
    let last = insertion_point(categories.last());
    let inner = patch_categories_view(t, front, extra);
    if m == categories.len() - 1 {
        assert forall|n: int| 0 <= n < front.len() implies leaves(insertion_point(#[trigger] front[n]), p) by {
            let q = insertion_point(front[n]);
            assert(front[n] == categories[n]);
            assert(p[3] != q[3]);
            assert(forall|j: int| 0 <= j < 3 ==> p[j] == q[j]);
        }
        lemma_categories_elsewhere(t, front, p, extra);
        lemma_patch_view_here(inner, p, extra);
    } else {
        assert forall|a: int, b: int| 0 <= a < b < front.len() implies front[a] != front[b] by {
            assert(front[a] == categories[a] && front[b] == categories[b]);
        }
        assert(front[m] == categories[m]);
        lemma_categories_here(t, front, m, extra);
        assert(categories[m] != categories[categories.len() - 1]);
        assert(p[3] != last[3]);
        assert(forall|j: int| 0 <= j < 3 ==> p[j] == last[j]);
        lemma_patch_view_elsewhere(inner, last, p, 3, extra);
    }
}

/// In the schema document, the insertion point of each patched category holds
/// the bindings that the base document holds there, with every shared property
/// set over them in order, the shared value winning on a key that both bind;
/// where the base document holds no mapping there, it holds what the base holds.
pub proof fn lemma_insertion_points_merged(category: Seq<char>)
    requires
        patched_categories().contains(category),
    ensures
        at_view(schema_view(), insertion_point(category)) == point_after(
            at_view(yaml_tree(SCHEMA@)->Some_0@, insertion_point(category)),
            entries_view(shared_properties()->Some_0),
        ),
{
    let cats = patched_categories();
    let m = choose|m: int| 0 <= m < cats.len() && cats[m] == category;
    lemma_categories_distinct();
    lemma_categories_here(
        yaml_tree(SCHEMA@)->Some_0@,
        cats,
        m,
        entries_view(shared_properties()->Some_0),
    );
}

} // verus!
