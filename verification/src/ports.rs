//! Data ports: the image and text collections and folders that flow along
//! data edges, how two collections merge, how a module's output becomes a
//! collection, and which files a module step receives from its inputs.
use crate::catalog::{
    declared_data_output_type, declared_output_type_spec, opt_view, ModuleInfo, DATA_TYPE_IMAGES,
    DATA_TYPE_TEXTS, HANDLE_TEXTS_OUT,
};
use crate::flow::{FlowNode, NodeView};
use crate::graph::{strings_contain, strings_view};
use crate::json::{
    clone_values, entries_view, json_as_array, json_as_str, json_as_u64, json_get, json_seq_view, JsonValue,
    JsonView,
};
use crate::run::AuditFile;
use crate::strs::{concat2, str_eq, trim, trim_spec};
use crate::text::{relative_path_matches, relative_path_matches_spec};
use vstd::prelude::*;

verus! {

/// A value on a data port: a collection of items of a data type, or a folder.
#[derive(Debug)]
pub struct DataPortValue {
    pub data_type: String,
    pub items: Vec<JsonValue>,
    pub path: Option<String>,
    pub name: Option<String>,
    pub relative_path: Option<String>,
}

/// An image in an image collection.
#[derive(Debug)]
pub struct ImageCollectionItem {
    pub path: String,
    pub name: String,
    pub extension: String,
    pub source_asset_id: String,
    pub source_asset_name: String,
    pub relative_path: String,
}

/// A text in a text collection.
#[derive(Debug)]
pub struct TextCollectionItem {
    pub source_type: String,
    pub path: String,
    pub name: String,
    pub relative_path: String,
    pub text: String,
}

/// An object whose entries are the given ones.
pub fn object_from_entries(entries: Vec<(String, JsonValue)>) -> (r: JsonValue)
    ensures
        r@ == JsonView::Object(entries_view(entries@)),
{
    let ghost ev = entries_view(entries@);
    let r = JsonValue::Object(entries);
    assert(r@->Object_0 =~= ev);
    r
}

/// The JSON form of an image item.
pub open spec fn image_item_view(
    path: Seq<char>,
    name: Seq<char>,
    extension: Seq<char>,
    source_asset_id: Seq<char>,
    source_asset_name: Seq<char>,
    relative_path: Seq<char>,
) -> JsonView {
    JsonView::Object(
        seq![
            ("path"@, JsonView::Str(path)),
            ("name"@, JsonView::Str(name)),
            ("extension"@, JsonView::Str(extension)),
            ("sourceAssetId"@, JsonView::Str(source_asset_id)),
            ("sourceAssetName"@, JsonView::Str(source_asset_name)),
            ("relativePath"@, JsonView::Str(relative_path)),
        ],
    )
}

/// The JSON form of a text item.
pub open spec fn text_item_view(
    source_type: Seq<char>,
    path: Seq<char>,
    name: Seq<char>,
    relative_path: Seq<char>,
    text: Seq<char>,
) -> JsonView {
    JsonView::Object(
        seq![
            ("sourceType"@, JsonView::Str(source_type)),
            ("path"@, JsonView::Str(path)),
            ("name"@, JsonView::Str(name)),
            ("relativePath"@, JsonView::Str(relative_path)),
            ("text"@, JsonView::Str(text)),
        ],
    )
}

impl ImageCollectionItem {
    /// The JSON form of this item.
    pub fn to_json(&self) -> (r: JsonValue)
        ensures
            r@ == image_item_view(
                self.path@,
                self.name@,
                self.extension@,
                self.source_asset_id@,
                self.source_asset_name@,
                self.relative_path@,
            ),
    {
        let mut e: Vec<(String, JsonValue)> = Vec::new();
        e.push(("path".to_owned(), JsonValue::Str(self.path.clone())));
        e.push(("name".to_owned(), JsonValue::Str(self.name.clone())));
        e.push(("extension".to_owned(), JsonValue::Str(self.extension.clone())));
        e.push(("sourceAssetId".to_owned(), JsonValue::Str(self.source_asset_id.clone())));
        e.push(("sourceAssetName".to_owned(), JsonValue::Str(self.source_asset_name.clone())));
        e.push(("relativePath".to_owned(), JsonValue::Str(self.relative_path.clone())));
        let r = object_from_entries(e);
        assert(r@->Object_0 =~= image_item_view(
            self.path@,
            self.name@,
            self.extension@,
            self.source_asset_id@,
            self.source_asset_name@,
            self.relative_path@,
        )->Object_0);
        r
    }
}

impl TextCollectionItem {
    /// The JSON form of this item.
    pub fn to_json(&self) -> (r: JsonValue)
        ensures
            r@ == text_item_view(self.source_type@, self.path@, self.name@, self.relative_path@, self.text@),
    {
        let mut e: Vec<(String, JsonValue)> = Vec::new();
        e.push(("sourceType".to_owned(), JsonValue::Str(self.source_type.clone())));
        e.push(("path".to_owned(), JsonValue::Str(self.path.clone())));
        e.push(("name".to_owned(), JsonValue::Str(self.name.clone())));
        e.push(("relativePath".to_owned(), JsonValue::Str(self.relative_path.clone())));
        e.push(("text".to_owned(), JsonValue::Str(self.text.clone())));
        let r = object_from_entries(e);
        assert(r@->Object_0 =~= text_item_view(
            self.source_type@,
            self.path@,
            self.name@,
            self.relative_path@,
            self.text@,
        )->Object_0);
        r
    }
}

/// The image item of an audited file.
pub open spec fn file_image_item(f: AuditFile) -> JsonView {
    image_item_view(f.path@, f.name@, f.extension@, f.source_asset_id@, f.source_asset_name@, f.relative_path@)
}

/// The image item of an audited file.
pub fn image_item_from_file(file: &AuditFile) -> (r: JsonValue)
    ensures
        r@ == file_image_item(*file),
{
    let item = ImageCollectionItem {
        path: file.path.clone(),
        name: file.name.clone(),
        extension: file.extension.clone(),
        source_asset_id: file.source_asset_id.clone(),
        source_asset_name: file.source_asset_name.clone(),
        relative_path: file.relative_path.clone(),
    };
    item.to_json()
}

/// The text item of an audited file with the text read from it.
pub open spec fn file_text_item(f: AuditFile, text: Seq<char>) -> JsonView {
    text_item_view("file"@, f.path@, f.name@, f.relative_path@, text)
}

/// The text item of an audited file, given the text read from it.
pub fn text_item_from_file(file: &AuditFile, text: &str) -> (r: JsonValue)
    ensures
        r@ == file_text_item(*file, text@),
{
    let item = TextCollectionItem {
        source_type: "file".to_owned(),
        path: file.path.clone(),
        name: file.name.clone(),
        relative_path: file.relative_path.clone(),
        text: text.to_owned(),
    };
    item.to_json()
}

/// A collection value: `data_type` with `items`, no folder.
pub open spec fn is_collection(v: DataPortValue, data_type: Seq<char>, items: Seq<JsonView>) -> bool {
    &&& v.data_type@ == data_type
    &&& json_seq_view(v.items@) == items
    &&& v.path is None
    &&& v.name is None
    &&& v.relative_path is None
}

/// A collection of `items` of type `data_type`.
pub fn collection_from_items(data_type: &str, items: Vec<JsonValue>) -> (r: DataPortValue)
    ensures
        is_collection(r, data_type@, json_seq_view(items@)),
{
    DataPortValue { data_type: data_type.to_owned(), items, path: None, name: None, relative_path: None }
}

/// The items of the first `k` files of type `file_type` under `relative_path`
/// (any path when `None`): image items, or text items with their texts.
pub open spec fn file_items(
    files: Seq<AuditFile>,
    texts: Seq<Seq<char>>,
    images: bool,
    relative_path: Option<Seq<char>>,
    k: int,
) -> Seq<JsonView>
    decreases k,
{
    if k <= 0 {
        Seq::empty()
    } else {
        let f = files[k - 1];
        let wanted = f.file_type@ == (if images {
            "image"@
        } else {
            "text"@
        }) && match relative_path {
            Some(p) => relative_path_matches_spec(f.relative_path@, p),
            None => true,
        };
        file_items(files, texts, images, relative_path, k - 1) + if wanted {
            seq![
                if images {
                    file_image_item(f)
                } else {
                    file_text_item(f, texts[k - 1])
                },
            ]
        } else {
            Seq::empty()
        }
    }
}

/// The item a file of the run gives a collection of images or of texts.
pub open spec fn file_item(files: Seq<AuditFile>, texts: Seq<Seq<char>>, images: bool, j: int) -> JsonView {
    if images {
        file_image_item(files[j])
    } else {
        file_text_item(files[j], texts[j])
    }
}

/// Whether file `j` of the run has the wanted type and lies under `p`.
pub open spec fn file_under(files: Seq<AuditFile>, images: bool, p: Seq<char>, j: int) -> bool {
    &&& files[j].file_type@ == (if images {
        "image"@
    } else {
        "text"@
    })
    &&& relative_path_matches_spec(files[j].relative_path@, p)
}

/// A collection under a relative path holds the items of exactly the files of
/// its type that lie under that path: each of its items is such a file's item,
/// and each such file's item is in it.
pub proof fn lemma_file_items_under_path(
    files: Seq<AuditFile>,
    texts: Seq<Seq<char>>,
    images: bool,
    p: Seq<char>,
    k: int,
)
    requires
        0 <= k <= files.len(),
    ensures
        forall|x: JsonView|
            #[trigger] file_items(files, texts, images, Some(p), k).contains(x) ==> exists|j: int|
                0 <= j < k && file_under(files, images, p, j) && x == #[trigger] file_item(files, texts, images, j),
        forall|j: int|
            0 <= j < k && file_under(files, images, p, j) ==> file_items(files, texts, images, Some(p), k).contains(
                #[trigger] file_item(files, texts, images, j),
            ),
    decreases k,
{
    if k > 0 {
        lemma_file_items_under_path(files, texts, images, p, k - 1);
        let prev = file_items(files, texts, images, Some(p), k - 1);
        let cur = file_items(files, texts, images, Some(p), k);
        assert forall|x: JsonView| cur.contains(x) implies exists|j: int|
            0 <= j < k && file_under(files, images, p, j) && x == #[trigger] file_item(files, texts, images, j) by {
            let t = choose|t: int| 0 <= t < cur.len() && cur[t] == x;
            if t < prev.len() {
                assert(prev[t] == x);
                assert(prev.contains(x));
            } else {
                assert(file_under(files, images, p, k - 1));
                assert(x == file_item(files, texts, images, k - 1));
            }
        }
        assert forall|j: int| 0 <= j < k && file_under(files, images, p, j) implies cur.contains(
            #[trigger] file_item(files, texts, images, j),
        ) by {
            if j < k - 1 {
                let x = file_item(files, texts, images, j);
                assert(prev.contains(x));
                let t = choose|t: int| 0 <= t < prev.len() && prev[t] == x;
                assert(cur[t] == x);
            } else {
                assert(cur[cur.len() - 1] == file_item(files, texts, images, j));
            }
        }
    }
}

/// The collection of the audited files of one type, each file's text given
/// at the same position of `texts`.
fn files_collection(files: &Vec<AuditFile>, texts: &Vec<String>, images: bool, relative_path: Option<&str>) -> (r: DataPortValue)
    requires
        texts@.len() == files@.len(),
    ensures
        is_collection(
            r,
            if images {
                DATA_TYPE_IMAGES@
            } else {
                DATA_TYPE_TEXTS@
            },
            file_items(
                files@,
                strings_view(texts@),
                images,
                match relative_path {
                    Some(p) => Some(p@),
                    None => None,
                },
                files@.len() as int,
            ),
        ),
{
    let ghost rp = match relative_path {
        Some(p) => Some(p@),
        None => None,
    };
    let mut items: Vec<JsonValue> = Vec::new();
    let mut i: usize = 0;
    while i < files.len()
        invariant
            texts@.len() == files@.len(),
            i <= files@.len(),
            rp == match relative_path {
                Some(p) => Some(p@),
                None => None::<Seq<char>>,
            },
            json_seq_view(items@) == file_items(files@, strings_view(texts@), images, rp, i as int),
        decreases files@.len() - i,
    {
        let f = &files[i];
        let type_ok = if images {
            str_eq(f.file_type.as_str(), "image")
        } else {
            str_eq(f.file_type.as_str(), "text")
        };
        let path_ok = match relative_path {
            Some(p) => relative_path_matches(f.relative_path.as_str(), p),
            None => true,
        };
        let ghost before = json_seq_view(items@);
        if type_ok && path_ok {
            let item = if images {
                image_item_from_file(f)
            } else {
                assert(strings_view(texts@)[i as int] == texts@[i as int]@);
                text_item_from_file(f, texts[i].as_str())
            };
            items.push(item);
        }
        i += 1;
        assert(json_seq_view(items@) =~= file_items(files@, strings_view(texts@), images, rp, i as int));
    }
    collection_from_items(if images { DATA_TYPE_IMAGES } else { DATA_TYPE_TEXTS }, items)
}

/// `n` empty texts (image items carry no text).
pub open spec fn blank_texts(n: nat) -> Seq<Seq<char>> {
    Seq::new(n, |_i: int| Seq::<char>::empty())
}

/// Every image among the audited files.
pub fn all_images_collection(files: &Vec<AuditFile>) -> (r: DataPortValue)
    ensures
        is_collection(r, DATA_TYPE_IMAGES@, file_items(files@, blank_texts(files@.len()), true, None, files@.len() as int)),
{
    let mut texts: Vec<String> = Vec::new();
    let mut i: usize = 0;
    while i < files.len()
        invariant
            i <= files@.len(),
            texts@.len() == i,
            forall|j: int| 0 <= j < i ==> #[trigger] texts@[j]@ == Seq::<char>::empty(),
        decreases files@.len() - i,
    {
        let blank = String::new();
        assert(blank@ =~= Seq::<char>::empty());
        texts.push(blank);
        i += 1;
    }
    assert(strings_view(texts@) =~= blank_texts(files@.len()));
    files_collection(files, &texts, true, None)
}

/// Every text among the audited files, with the texts read from them.
pub fn all_texts_collection(files: &Vec<AuditFile>, texts: &Vec<String>) -> (r: DataPortValue)
    requires
        texts@.len() == files@.len(),
    ensures
        is_collection(r, DATA_TYPE_TEXTS@, file_items(files@, strings_view(texts@), false, None, files@.len() as int)),
{
    files_collection(files, texts, false, None)
}

/// The images (for the image type) or else the texts among the audited
/// files under `relative_path`.
pub fn relative_collection(files: &Vec<AuditFile>, texts: &Vec<String>, data_type: &str, relative_path: &str) -> (r: DataPortValue)
    requires
        texts@.len() == files@.len(),
    ensures
        is_collection(
            r,
            if data_type@ == DATA_TYPE_IMAGES@ {
                DATA_TYPE_IMAGES@
            } else {
                DATA_TYPE_TEXTS@
            },
            file_items(
                files@,
                strings_view(texts@),
                data_type@ == DATA_TYPE_IMAGES@,
                Some(relative_path@),
                files@.len() as int,
            ),
        ),
{
    files_collection(files, texts, str_eq(data_type, DATA_TYPE_IMAGES), Some(relative_path))
}

/// The string member `key` of an item, or the empty string.
pub open spec fn str_member(item: JsonView, key: Seq<char>) -> Seq<char> {
    match json_as_str(json_get(item, key)) {
        Some(s) => s,
        None => Seq::empty(),
    }
}

/// The string member `key` of a JSON value, or the empty string.
fn str_member_exec(item: &JsonValue, key: &str) -> (r: String)
    ensures
        r@ == str_member(item@, key@),
{
    match item.get(key) {
        Some(v) => match v.as_str() {
            Some(s) => s.to_owned(),
            None => String::new(),
        },
        None => String::new(),
    }
}

/// What makes two items of a collection the same: an image's path; a text's
/// source type, path and text.
pub open spec fn merge_key(data_type: Seq<char>, item: JsonView) -> Seq<char> {
    if data_type == DATA_TYPE_IMAGES@ {
        str_member(item, "path"@)
    } else {
        str_member(item, "sourceType"@) + "|"@ + str_member(item, "path"@) + "|"@ + str_member(item, "text"@)
    }
}

/// The same item occurs earlier in `items` than position `k`.
pub open spec fn key_seen_before(data_type: Seq<char>, items: Seq<JsonView>, k: int) -> bool {
    exists|j: int| 0 <= j < k && merge_key(data_type, #[trigger] items[j]) == merge_key(data_type, items[k])
}

/// The first occurrence of each item among the first `k` items.
pub open spec fn dedup_items(data_type: Seq<char>, items: Seq<JsonView>, k: int) -> Seq<JsonView>
    decreases k,
{
    if k <= 0 {
        Seq::empty()
    } else if key_seen_before(data_type, items, k - 1) {
        dedup_items(data_type, items, k - 1)
    } else {
        dedup_items(data_type, items, k - 1).push(items[k - 1])
    }
}

/// The key of an item.
fn merge_key_exec(data_type: &str, item: &JsonValue) -> (r: String)
    ensures
        r@ == merge_key(data_type@, item@),
{
    if str_eq(data_type, DATA_TYPE_IMAGES) {
        str_member_exec(item, "path")
    } else {
        let mut k = str_member_exec(item, "sourceType");
        k.append("|");
        k.append(str_member_exec(item, "path").as_str());
        k.append("|");
        k.append(str_member_exec(item, "text").as_str());
        k
    }
}

/// The items of two collections, each item once: the first occurrence of
/// every key in the left items followed by the right ones.
pub open spec fn merged_items(data_type: Seq<char>, left: Seq<JsonView>, right: Seq<JsonView>) -> Seq<JsonView> {
    dedup_items(data_type, left + right, (left + right).len() as int)
}

/// Adds the items of `src`, which stand at `off..` in `all`, each whose key
/// is new, keeping `seen` as the keys of everything looked at.
fn absorb_items(
    data_type: &str,
    src: &Vec<JsonValue>,
    items: &mut Vec<JsonValue>,
    seen: &mut Vec<String>,
    Ghost(all): Ghost<Seq<JsonView>>,
    Ghost(off): Ghost<int>,
)
    requires
        0 <= off,
        off + src@.len() <= all.len(),
        forall|q: int| 0 <= q < src@.len() ==> #[trigger] src@[q]@ == all[off + q],
        json_seq_view(old(items)@) == dedup_items(data_type@, all, off),
        forall|x: Seq<char>|
            strings_view(old(seen)@).contains(x) <==> exists|j: int| 0 <= j < off && #[trigger] merge_key(data_type@, all[j]) == x,
    ensures
        json_seq_view(final(items)@) == dedup_items(data_type@, all, off + src@.len()),
        forall|x: Seq<char>|
            strings_view(final(seen)@).contains(x) <==> exists|j: int|
                0 <= j < off + src@.len() && #[trigger] merge_key(data_type@, all[j]) == x,
{
    let mut q: usize = 0;
    while q < src.len()
        invariant
            0 <= off,
            off + src@.len() <= all.len(),
            forall|w: int| 0 <= w < src@.len() ==> #[trigger] src@[w]@ == all[off + w],
            q <= src@.len(),
            json_seq_view(items@) == dedup_items(data_type@, all, off + q),
            forall|x: Seq<char>|
                strings_view(seen@).contains(x) <==> exists|j: int| 0 <= j < off + q && #[trigger] merge_key(data_type@, all[j]) == x,
        decreases src@.len() - q,
    {
        let ghost k = off + q;
        let item = &src[q];
        assert(item@ == all[k]);
        let key = merge_key_exec(data_type, item);
        let ghost before = json_seq_view(items@);
        let ghost old_seen = strings_view(seen@);
        let known = strings_contain(seen, key.as_str());
        proof {
            if known {
                let j = choose|j: int| 0 <= j < k && #[trigger] merge_key(data_type@, all[j]) == key@;
                assert(key_seen_before(data_type@, all, k));
            } else {
                assert(!key_seen_before(data_type@, all, k));
            }
        }
        if !known {
            items.push(item.deep_clone());
            seen.push(key);
            proof {
                assert(json_seq_view(items@) =~= before.push(all[k]));
                let sv = strings_view(seen@);
                assert(sv =~= old_seen.push(merge_key(data_type@, all[k])));
                assert forall|x: Seq<char>|
                    sv.contains(x) <==> exists|j: int| 0 <= j < k + 1 && #[trigger] merge_key(data_type@, all[j]) == x by {
                    if sv.contains(x) {
                        let w = choose|w: int| 0 <= w < sv.len() && sv[w] == x;
                        if w < old_seen.len() {
                            assert(old_seen[w] == x);
                            assert(old_seen.contains(x));
                        }
                    }
                    if exists|j: int| 0 <= j < k + 1 && #[trigger] merge_key(data_type@, all[j]) == x {
                        let j = choose|j: int| 0 <= j < k + 1 && #[trigger] merge_key(data_type@, all[j]) == x;
                        if j < k {
                            assert(old_seen.contains(x));
                            let w = choose|w: int| 0 <= w < old_seen.len() && old_seen[w] == x;
                            assert(sv[w] == x);
                        } else {
                            assert(sv[old_seen.len() as int] == x);
                        }
                    }
                }
            }
        } else {
            proof {
                assert forall|x: Seq<char>|
                    old_seen.contains(x) <==> exists|j: int| 0 <= j < k + 1 && #[trigger] merge_key(data_type@, all[j]) == x by {
                    if exists|j: int| 0 <= j < k + 1 && #[trigger] merge_key(data_type@, all[j]) == x {
                        let j = choose|j: int| 0 <= j < k + 1 && #[trigger] merge_key(data_type@, all[j]) == x;
                        if j == k {
                            assert(x == key@);
                        }
                    }
                }
            }
        }
        q += 1;
    }
}

/// Merges two collections into one of the left one's type, dropping repeats.
pub fn merge_collections(left: DataPortValue, right: DataPortValue) -> (r: DataPortValue)
    ensures
        is_collection(
            r,
            left.data_type@,
            merged_items(left.data_type@, json_seq_view(left.items@), json_seq_view(right.items@)),
        ),
{
    let ghost all = json_seq_view(left.items@) + json_seq_view(right.items@);
    let ghost nl = left.items@.len() as int;
    let data_type = left.data_type;
    let mut seen: Vec<String> = Vec::new();
    let mut items: Vec<JsonValue> = Vec::new();
    assert(json_seq_view(items@) =~= dedup_items(data_type@, all, 0));
    absorb_items(data_type.as_str(), &left.items, &mut items, &mut seen, Ghost(all), Ghost(0));
    absorb_items(data_type.as_str(), &right.items, &mut items, &mut seen, Ghost(all), Ghost(nl));
    collection_from_items(data_type.as_str(), items)
}

/// `x` is one of the first `k` items.
pub open spec fn occurs_before(items: Seq<JsonView>, k: int, x: JsonView) -> bool {
    exists|j: int| 0 <= j < k && #[trigger] items[j] == x
}

/// A merge keeps one item per key: no two of its items share a key.
pub proof fn lemma_merge_has_no_repeats(data_type: Seq<char>, items: Seq<JsonView>, k: int)
    requires
        0 <= k <= items.len(),
    ensures
        forall|p: int, q: int|
            0 <= p < q < dedup_items(data_type, items, k).len() ==> merge_key(
                data_type,
                #[trigger] dedup_items(data_type, items, k)[p],
            ) != merge_key(data_type, #[trigger] dedup_items(data_type, items, k)[q]),
        forall|p: int|
            0 <= p < dedup_items(data_type, items, k).len() ==> #[trigger] occurs_before(
                items,
                k,
                dedup_items(data_type, items, k)[p],
            ),
    decreases k,
{
    if k > 0 {
        lemma_merge_has_no_repeats(data_type, items, k - 1);
        let d = dedup_items(data_type, items, k - 1);
        if !key_seen_before(data_type, items, k - 1) {
            let d2 = d.push(items[k - 1]);
            assert forall|p: int, q: int| 0 <= p < q < d2.len() implies merge_key(data_type, #[trigger] d2[p])
                != merge_key(data_type, #[trigger] d2[q]) by {
                if q == d.len() {
                    assert(occurs_before(items, k - 1, d[p]));
                    let j = choose|j: int| 0 <= j < k - 1 && #[trigger] items[j] == d[p];
                    assert(d2[p] == d[p]);
                    if merge_key(data_type, d2[p]) == merge_key(data_type, d2[q]) {
                        assert(merge_key(data_type, items[j]) == merge_key(data_type, items[k - 1]));
                        assert(key_seen_before(data_type, items, k - 1));
                    }
                } else {
                    assert(d2[p] == d[p] && d2[q] == d[q]);
                }
            }
            assert forall|p: int| 0 <= p < d2.len() implies #[trigger] occurs_before(items, k, d2[p]) by {
                if p < d.len() {
                    assert(occurs_before(items, k - 1, d[p]));
                    let j = choose|j: int| 0 <= j < k - 1 && #[trigger] items[j] == d[p];
                    assert(d2[p] == d[p]);
                } else {
                    assert(items[k - 1] == d2[p]);
                }
            }
        } else {
            assert forall|p: int| 0 <= p < d.len() implies #[trigger] occurs_before(items, k, d[p]) by {
                assert(occurs_before(items, k - 1, d[p]));
                let j = choose|j: int| 0 <= j < k - 1 && #[trigger] items[j] == d[p];
            }
        }
    }
}

/// A merge loses no key: every item of either side has an item with its key in the merge.
pub proof fn lemma_merge_keeps_every_key(data_type: Seq<char>, items: Seq<JsonView>, k: int)
    requires
        0 <= k <= items.len(),
    ensures
        forall|j: int|
            0 <= j < k ==> exists|p: int|
                0 <= p < dedup_items(data_type, items, k).len() && merge_key(
                    data_type,
                    #[trigger] dedup_items(data_type, items, k)[p],
                ) == merge_key(data_type, #[trigger] items[j]),
    decreases k,
{
    if k > 0 {
        lemma_merge_keeps_every_key(data_type, items, k - 1);
        let d = dedup_items(data_type, items, k - 1);
        let d2 = dedup_items(data_type, items, k);
        assert forall|j: int| 0 <= j < k implies exists|p: int|
            0 <= p < d2.len() && merge_key(data_type, #[trigger] d2[p]) == merge_key(data_type, #[trigger] items[j]) by {
            if key_seen_before(data_type, items, k - 1) {
                if j == k - 1 {
                    let i0 = choose|i0: int| 0 <= i0 < k - 1 && merge_key(data_type, #[trigger] items[i0]) == merge_key(data_type, items[k - 1]);
                    let p = choose|p: int| 0 <= p < d.len() && merge_key(data_type, #[trigger] d[p]) == merge_key(data_type, items[i0]);
                    assert(d2[p] == d[p]);
                } else {
                    let p = choose|p: int| 0 <= p < d.len() && merge_key(data_type, #[trigger] d[p]) == merge_key(data_type, items[j]);
                    assert(d2[p] == d[p]);
                }
            } else {
                if j == k - 1 {
                    assert(d2[d.len() as int] == items[k - 1]);
                } else {
                    let p = choose|p: int| 0 <= p < d.len() && merge_key(data_type, #[trigger] d[p]) == merge_key(data_type, items[j]);
                    assert(d2[p] == d[p]);
                }
            }
        }
    }
}

/// The member `first` of an item when it has one, else the member `second`, as a string.
pub open spec fn alt_str(item: JsonView, first: Seq<char>, second: Seq<char>) -> Option<Seq<char>> {
    json_as_str(
        if json_get(item, first) is Some {
            json_get(item, first)
        } else {
            json_get(item, second)
        },
    )
}

/// The member `first` of a value when it has one, else the member `second`, as a string.
fn alt_str_exec(item: &JsonValue, first: &str, second: &str) -> (r: Option<String>)
    ensures
        opt_view(r) == alt_str(item@, first@, second@),
{
    let v = match item.get(first) {
        Some(v) => Some(v),
        None => item.get(second),
    };
    match v {
        Some(v) => match v.as_str() {
            Some(s) => Some(s.to_owned()),
            None => None,
        },
        None => None,
    }
}

/// The OCR text item of one result of a module's output, when it has text.
pub open spec fn ocr_result_item(node: NodeView, result: JsonView) -> Option<JsonView> {
    let text = trim_spec(str_member(result, "fullText"@));
    if text.len() == 0 {
        None
    } else {
        let path = match alt_str(result, "textPath"@, "path"@) {
            Some(p) => p,
            None => "previous:"@ + node.id,
        };
        let name = match alt_str(result, "textName"@, "name"@) {
            Some(n) => n,
            None => node.label,
        };
        let relative_path = match alt_str(result, "textRelativePath"@, "relativePath"@) {
            Some(r) => r,
            None => path,
        };
        Some(text_item_view("ocr"@, path, name, relative_path, text))
    }
}

/// The OCR text items of the first `k` results.
pub open spec fn ocr_items(node: NodeView, results: Seq<JsonView>, k: int) -> Seq<JsonView>
    decreases k,
{
    if k <= 0 {
        Seq::empty()
    } else {
        ocr_items(node, results, k - 1) + match ocr_result_item(node, results[k - 1]) {
            Some(item) => seq![item],
            None => Seq::empty(),
        }
    }
}

/// The text collection of an OCR module's output: an item for each result
/// with text; failing that, one item for the output's whole text, if any.
pub open spec fn output_text_items(node: NodeView, output: JsonView) -> Seq<JsonView> {
    let from_results = match json_as_array(json_get(output, "results"@)) {
        Some(results) => ocr_items(node, results, results.len() as int),
        None => Seq::empty(),
    };
    if from_results.len() > 0 {
        from_results
    } else {
        let whole = match json_get(output, "outputs"@) {
            Some(o) => trim_spec(str_member(o, "fullText"@)),
            None => Seq::empty(),
        };
        if whole.len() > 0 {
            seq![text_item_view("ocr"@, "previous:"@ + node.id, node.label, "previous:"@ + node.id, whole)]
        } else {
            Seq::empty()
        }
    }
}

/// The text collection that an OCR module's output provides.
pub fn module_output_as_text_collection(node: &FlowNode, output: &JsonValue) -> (r: DataPortValue)
    ensures
        is_collection(r, DATA_TYPE_TEXTS@, output_text_items(node@, output@)),
{
    let mut items: Vec<JsonValue> = Vec::new();
    let previous = concat2("previous:", node.id.as_str());
    match output.get("results") {
        Some(rv) => match rv.as_array() {
            Some(results) => {
                let ghost rs = json_seq_view(results@);
                let mut i: usize = 0;
                while i < results.len()
                    invariant
                        rs == json_seq_view(results@),
                        i <= results@.len(),
                        previous@ == "previous:"@ + node@.id,
                        json_seq_view(items@) == ocr_items(node@, rs, i as int),
                    decreases results@.len() - i,
                {
                    let result = &results[i];
                    assert(rs[i as int] == result@);
                    let text = trim(str_member_exec(result, "fullText").as_str());
                    let ghost before = json_seq_view(items@);
                    if !text.as_str().is_empty() {
                        let path = match alt_str_exec(result, "textPath", "path") {
                            Some(p) => p,
                            None => previous.clone(),
                        };
                        let name = match alt_str_exec(result, "textName", "name") {
                            Some(n) => n,
                            None => node.label.clone(),
                        };
                        let relative_path = match alt_str_exec(result, "textRelativePath", "relativePath") {
                            Some(r) => r,
                            None => path.clone(),
                        };
                        let item = TextCollectionItem { source_type: "ocr".to_owned(), path, name, relative_path, text };
                        items.push(item.to_json());
                    }
                    i += 1;
                    assert(json_seq_view(items@) =~= ocr_items(node@, rs, i as int));
                }
            },
            None => {},
        },
        None => {},
    }
    if items.len() == 0 {
        let whole = match output.get("outputs") {
            Some(o) => trim(str_member_exec(o, "fullText").as_str()),
            None => String::new(),
        };
        if !whole.as_str().is_empty() {
            let item = TextCollectionItem {
                source_type: "ocr".to_owned(),
                path: previous.clone(),
                name: node.label.clone(),
                relative_path: previous,
                text: whole,
            };
            items.push(item.to_json());
        }
    }
    assert(json_seq_view(items@) =~= output_text_items(node@, output@));
    collection_from_items(DATA_TYPE_TEXTS, items)
}

/// The value a module output gives port `handle`: `outputs[handle]` when
/// present, else the member `handle` itself.
pub open spec fn port_value(output: JsonView, handle: Seq<char>) -> Option<JsonView> {
    let nested = match json_get(output, "outputs"@) {
        Some(o) => json_get(o, handle),
        None => None,
    };
    if nested is Some {
        nested
    } else {
        json_get(output, handle)
    }
}

/// The items a module output gives port `handle`: the port value's `items`
/// array, or the port value itself when it is an array and has no `items`.
pub open spec fn declared_items(output: JsonView, handle: Seq<char>) -> Seq<JsonView> {
    match port_value(output, handle) {
        Some(v) => {
            let inner = if json_get(v, "items"@) is Some {
                json_get(v, "items"@)
            } else {
                Some(v)
            };
            match json_as_array(inner) {
                Some(items) => items,
                None => Seq::empty(),
            }
        },
        None => Seq::empty(),
    }
}

/// The collection a module output gives a declared port.
pub fn module_output_as_declared_collection(output: &JsonValue, handle: &str, data_type: &str) -> (r: DataPortValue)
    ensures
        is_collection(r, data_type@, declared_items(output@, handle@)),
{
    let nested = match output.get("outputs") {
        Some(o) => o.get(handle),
        None => None,
    };
    let port = match nested {
        Some(v) => Some(v),
        None => output.get(handle),
    };
    let items = match port {
        Some(v) => {
            let inner = match v.get("items") {
                Some(i) => i,
                None => v,
            };
            match inner.as_array() {
                Some(a) => clone_values(a),
                None => Vec::new(),
            }
        },
        None => Vec::new(),
    };
    assert(json_seq_view(items@) =~= declared_items(output@, handle@));
    collection_from_items(data_type, items)
}

/// What a module step's output gives port `handle`: a declared output's
/// collection; an OCR module's text collection on its text port; else nothing.
pub open spec fn module_data_output_spec(module: ModuleInfo, node: NodeView, output: JsonView, handle: Seq<char>) -> Option<(Seq<char>, Seq<JsonView>)> {
    match declared_output_type_spec(module.data_outputs@, handle) {
        Some(t) => Some((t, declared_items(output, handle))),
        None => if module.kind@ == "image_ocr"@ && handle == HANDLE_TEXTS_OUT@ {
            Some((DATA_TYPE_TEXTS@, output_text_items(node, output)))
        } else {
            None
        },
    }
}

/// What a module step's output gives port `handle`.
pub fn module_data_output(module: &ModuleInfo, node: &FlowNode, output: &JsonValue, handle: &str) -> (r: Option<DataPortValue>)
    ensures
        match module_data_output_spec(*module, node@, output@, handle@) {
            Some((t, items)) => r matches Some(v) && is_collection(v, t, items),
            None => r is None,
        },
{
    match declared_data_output_type(module, handle) {
        Some(t) => Some(module_output_as_declared_collection(output, handle, t.as_str())),
        None => {
            if str_eq(module.kind.as_str(), "image_ocr") && str_eq(handle, HANDLE_TEXTS_OUT) {
                Some(module_output_as_text_collection(node, output))
            } else {
                None
            }
        },
    }
}

/// A count that a progress file reports: the non-negative integer member
/// `key`, when it fits in `usize`.
pub open spec fn progress_value_spec(value: JsonView, key: Seq<char>) -> Option<usize> {
    match json_as_u64(json_get(value, key)) {
        Some(n) => if n <= usize::MAX {
            Some(n as usize)
        } else {
            None
        },
        None => None,
    }
}

/// A count that a progress file reports.
pub fn progress_value(value: &JsonValue, key: &str) -> (r: Option<usize>)
    ensures
        r == progress_value_spec(value@, key@),
{
    match value.get(key) {
        Some(v) => match v.as_u64() {
            Some(n) => {
                if n as u128 <= usize::MAX as u128 {
                    Some(n as usize)
                } else {
                    None
                }
            },
            None => None,
        },
        None => None,
    }
}

/// The view of an audited file.
pub struct AuditFileView {
    pub path: Seq<char>,
    pub name: Seq<char>,
    pub extension: Seq<char>,
    pub file_type: Seq<char>,
    pub source_asset_id: Seq<char>,
    pub source_asset_name: Seq<char>,
    pub relative_path: Seq<char>,
}

/// The view of an audited file.
pub open spec fn file_view(f: AuditFile) -> AuditFileView {
    AuditFileView {
        path: f.path@,
        name: f.name@,
        extension: f.extension@,
        file_type: f.file_type@,
        source_asset_id: f.source_asset_id@,
        source_asset_name: f.source_asset_name@,
        relative_path: f.relative_path@,
    }
}

/// The views of a sequence of audited files.
pub open spec fn files_view(fs: Seq<AuditFile>) -> Seq<AuditFileView> {
    fs.map_values(|f: AuditFile| file_view(f))
}

/// The part of a path after its last `/` or `\`.
pub open spec fn last_component(path: Seq<char>) -> Seq<char>
    decreases path.len(),
{
    if path.len() == 0 {
        Seq::empty()
    } else if path.last() == '/' || path.last() == '\\' {
        Seq::empty()
    } else {
        last_component(path.drop_last()).push(path.last())
    }
}

/// The extension of the file a path names: the part after the last dot of
/// its last component, when that dot is not the component's first character.
pub open spec fn path_extension(path: Seq<char>) -> Seq<char> {
    let name = last_component(path);
    match crate::modules::after_last_dot(name) {
        Some(e) => if e.len() + 1 == name.len() {
            Seq::empty()
        } else {
            e
        },
        None => Seq::empty(),
    }
}

/// The part of a path after its last `/` or `\`.
fn last_component_exec(path: &Vec<char>) -> (r: Vec<char>)
    ensures
        r@ == last_component(path@),
{
    let mut i: usize = path.len();
    assert(path@.take(path@.len() as int) =~= path@);
    assert(path@.skip(path@.len() as int) =~= Seq::<char>::empty());
    while i > 0
        invariant
            i <= path@.len(),
            forall|j: int| i <= j < path@.len() ==> path@[j] != '/' && path@[j] != '\\',
            last_component(path@) == last_component(path@.take(i as int)) + path@.skip(i as int),
        decreases i,
    {
        let c = path[i - 1];
        assert(path@.take(i as int).drop_last() =~= path@.take(i - 1));
        if c == '/' || c == '\\' {
            assert(last_component(path@.take(i as int)) =~= Seq::<char>::empty());
            let r = crate::strs::chars_slice(path, i, path.len());
            assert(r@ =~= Seq::<char>::empty() + path@.skip(i as int));
            return r;
        }
        assert(last_component(path@.take(i as int)) == last_component(path@.take(i - 1)).push(c));
        assert(last_component(path@.take(i - 1)).push(c) + path@.skip(i as int) =~= last_component(path@.take(i - 1))
            + path@.skip(i - 1));
        i -= 1;
    }
    assert(path@.take(0) =~= Seq::<char>::empty());
    let r = crate::strs::chars_slice(path, 0, path.len());
    assert(r@ =~= Seq::<char>::empty() + path@.skip(0));
    r
}

/// The extension of the file a path names.
fn path_extension_exec(path: &str) -> (r: String)
    ensures
        r@ == path_extension(path@),
{
    let v = crate::strs::chars_of(path);
    let name = last_component_exec(&v);
    match crate::modules::chars_after_last_dot(&name) {
        Some(e) => {
            if name.len() > 0 && e.len() == name.len() - 1 {
                String::new()
            } else {
                crate::strs::string_from_chars(&e)
            }
        },
        None => String::new(),
    }
}

/// An item path that names a file: not empty and not a previous step's output.
pub open spec fn usable_path(p: Seq<char>) -> bool {
    p.len() > 0 && !"previous:"@.is_prefix_of(p)
}

/// The file an item of an image (`images`) or text collection stands for.
pub open spec fn item_file(images: bool, item: JsonView) -> AuditFileView {
    let path = str_member(item, "path"@);
    AuditFileView {
        path,
        name: str_member(item, "name"@),
        extension: match json_as_str(json_get(item, "extension"@)) {
            Some(e) => e,
            None => crate::strs::ascii_lower_seq(path_extension(path)),
        },
        file_type: if images {
            "image"@
        } else {
            "text"@
        },
        source_asset_id: str_member(item, "sourceAssetId"@),
        source_asset_name: str_member(item, "sourceAssetName"@),
        relative_path: str_member(item, "relativePath"@),
    }
}

/// Some earlier candidate has a usable path equal to that of candidate `k`.
pub open spec fn path_seen_before(c: Seq<(bool, JsonView)>, k: int) -> bool {
    exists|j: int|
        0 <= j < k && #[trigger] usable_path(str_member(c[j].1, "path"@)) && str_member(c[j].1, "path"@)
            == str_member(c[k].1, "path"@)
}

/// The files of the first `k` candidates: each usable path once, the first
/// time it comes.
pub open spec fn candidate_files(c: Seq<(bool, JsonView)>, k: int) -> Seq<AuditFileView>
    decreases k,
{
    if k <= 0 {
        Seq::empty()
    } else {
        let path = str_member(c[k - 1].1, "path"@);
        if !usable_path(path) || path_seen_before(c, k - 1) {
            candidate_files(c, k - 1)
        } else {
            candidate_files(c, k - 1).push(item_file(c[k - 1].0, c[k - 1].1))
        }
    }
}

/// The items of a collection input, marked as images or texts; none for other types.
pub open spec fn input_candidates(data_type: Seq<char>, items: Seq<JsonView>) -> Seq<(bool, JsonView)> {
    if data_type == DATA_TYPE_IMAGES@ || data_type == DATA_TYPE_TEXTS@ {
        items.map_values(|it: JsonView| (data_type == DATA_TYPE_IMAGES@, it))
    } else {
        Seq::empty()
    }
}

/// The candidates of the first `n` inputs, in order.
pub open spec fn all_candidates(inputs: Seq<(String, DataPortValue)>, n: int) -> Seq<(bool, JsonView)>
    decreases n,
{
    if n <= 0 {
        Seq::empty()
    } else {
        all_candidates(inputs, n - 1) + input_candidates(
            inputs[n - 1].1.data_type@,
            json_seq_view(inputs[n - 1].1.items@),
        )
    }
}

/// Candidates after the first `k` do not change the files of the first `k`.
proof fn lemma_candidate_files_prefix(c: Seq<(bool, JsonView)>, d: Seq<(bool, JsonView)>, k: int)
    requires
        0 <= k <= c.len(),
        c.len() <= d.len(),
        forall|j: int| 0 <= j < c.len() ==> d[j] == c[j],
    ensures
        candidate_files(d, k) == candidate_files(c, k),
    decreases k,
{
    if k > 0 {
        lemma_candidate_files_prefix(c, d, k - 1);
        assert(path_seen_before(d, k - 1) == path_seen_before(c, k - 1)) by {
            if path_seen_before(d, k - 1) {
                let j = choose|j: int|
                    0 <= j < k - 1 && #[trigger] usable_path(str_member(d[j].1, "path"@)) && str_member(d[j].1, "path"@)
                        == str_member(d[k - 1].1, "path"@);
                assert(d[j] == c[j]);
            }
            if path_seen_before(c, k - 1) {
                let j = choose|j: int|
                    0 <= j < k - 1 && #[trigger] usable_path(str_member(c[j].1, "path"@)) && str_member(c[j].1, "path"@)
                        == str_member(c[k - 1].1, "path"@);
                assert(d[j] == c[j]);
            }
        }
    }
}

/// The files that a module step receives from its collection inputs: each
/// item with a usable path once, in input order, typed by its collection.
pub fn compatible_files_from_inputs(inputs: &Vec<(String, DataPortValue)>) -> (r: Vec<AuditFile>)
    ensures
        files_view(r@) == candidate_files(
            all_candidates(inputs@, inputs@.len() as int),
            all_candidates(inputs@, inputs@.len() as int).len() as int,
        ),
{
    let mut files: Vec<AuditFile> = Vec::new();
    let mut seen: Vec<String> = Vec::new();
    let ghost mut done: Seq<(bool, JsonView)> = Seq::empty();
    let mut a: usize = 0;
    while a < inputs.len()
        invariant
            a <= inputs@.len(),
            done == all_candidates(inputs@, a as int),
            files_view(files@) == candidate_files(done, done.len() as int),
            forall|x: Seq<char>|
                strings_view(seen@).contains(x) <==> exists|j: int|
                    0 <= j < done.len() && #[trigger] usable_path(str_member(done[j].1, "path"@)) && str_member(
                        done[j].1,
                        "path"@,
                    ) == x,
        decreases inputs@.len() - a,
    {
        let value = &inputs[a].1;
        let images = str_eq(value.data_type.as_str(), DATA_TYPE_IMAGES);
        let texts = str_eq(value.data_type.as_str(), DATA_TYPE_TEXTS);
        let ghost cands = input_candidates(value.data_type@, json_seq_view(value.items@));
        let ghost base = done;
        if images || texts {
            let mut b: usize = 0;
            while b < value.items.len()
                invariant
                    images == (value.data_type@ == DATA_TYPE_IMAGES@),
                    texts == (value.data_type@ == DATA_TYPE_TEXTS@),
                    images || texts,
                    cands == input_candidates(value.data_type@, json_seq_view(value.items@)),
                    b <= value.items@.len(),
                    done == base + cands.take(b as int),
                    files_view(files@) == candidate_files(done, done.len() as int),
                    forall|x: Seq<char>|
                        strings_view(seen@).contains(x) <==> exists|j: int|
                            0 <= j < done.len() && #[trigger] usable_path(str_member(done[j].1, "path"@)) && str_member(
                                done[j].1,
                                "path"@,
                            ) == x,
                decreases value.items@.len() - b,
            {
                let item = &value.items[b];
                let ghost cand = (images, item@);
                assert(json_seq_view(value.items@)[b as int] == item@);
                assert(cands[b as int] == cand);
                let ghost next = done.push(cand);
                assert(next =~= base + cands.take(b + 1));
                proof {
                    lemma_candidate_files_prefix(done, next, done.len() as int);
                }
                let path = str_member_exec(item, "path");
                let usable = !path.as_str().is_empty() && !crate::strs::starts_with(path.as_str(), "previous:");
                let known = strings_contain(&seen, path.as_str());
                proof {
                    assert(next[done.len() as int] == cand);
                    if known && usable {
                        let j = choose|j: int|
                            0 <= j < done.len() && #[trigger] usable_path(str_member(done[j].1, "path"@)) && str_member(
                                done[j].1,
                                "path"@,
                            ) == path@;
                        assert(next[j] == done[j]);
                        assert(path_seen_before(next, done.len() as int));
                    }
                    if path_seen_before(next, done.len() as int) {
                        let j = choose|j: int|
                            0 <= j < done.len() && #[trigger] usable_path(str_member(next[j].1, "path"@)) && str_member(
                                next[j].1,
                                "path"@,
                            ) == str_member(next[done.len() as int].1, "path"@);
                        assert(next[j] == done[j]);
                        assert(strings_view(seen@).contains(path@));
                    }
                }
                if usable && !known {
                    let name = str_member_exec(item, "name");
                    let extension = match item.get("extension") {
                        Some(e) => match e.as_str() {
                            Some(x) => x.to_owned(),
                            None => crate::strs::to_ascii_lowercase(path_extension_exec(path.as_str()).as_str()),
                        },
                        None => crate::strs::to_ascii_lowercase(path_extension_exec(path.as_str()).as_str()),
                    };
                    let f = AuditFile {
                        path: path.clone(),
                        name,
                        extension,
                        file_type: if images { "image".to_owned() } else { "text".to_owned() },
                        source_asset_id: str_member_exec(item, "sourceAssetId"),
                        source_asset_name: str_member_exec(item, "sourceAssetName"),
                        relative_path: str_member_exec(item, "relativePath"),
                    };
                    let ghost old_files = files_view(files@);
                    let ghost old_seen = strings_view(seen@);
                    files.push(f);
                    seen.push(path);
                    proof {
                        assert(file_view(f) == item_file(images, item@));
                        assert(files_view(files@) =~= old_files.push(item_file(images, item@)));
                        let sv = strings_view(seen@);
                        assert(sv =~= old_seen.push(str_member(item@, "path"@)));
                        assert forall|x: Seq<char>|
                            sv.contains(x) <==> exists|j: int|
                                0 <= j < next.len() && #[trigger] usable_path(str_member(next[j].1, "path"@)) && str_member(
                                    next[j].1,
                                    "path"@,
                                ) == x by {
                            if sv.contains(x) {
                                let w = choose|w: int| 0 <= w < sv.len() && sv[w] == x;
                                if w < old_seen.len() {
                                    assert(old_seen[w] == x);
                                    assert(old_seen.contains(x));
                                    let j = choose|j: int|
                                        0 <= j < done.len() && #[trigger] usable_path(str_member(done[j].1, "path"@))
                                            && str_member(done[j].1, "path"@) == x;
                                    assert(next[j] == done[j]);
                                } else {
                                    assert(usable_path(str_member(next[done.len() as int].1, "path"@)));
                                }
                            }
                            if exists|j: int|
                                0 <= j < next.len() && #[trigger] usable_path(str_member(next[j].1, "path"@)) && str_member(
                                    next[j].1,
                                    "path"@,
                                ) == x {
                                let j = choose|j: int|
                                    0 <= j < next.len() && #[trigger] usable_path(str_member(next[j].1, "path"@))
                                        && str_member(next[j].1, "path"@) == x;
                                if j < done.len() {
                                    assert(next[j] == done[j]);
                                    assert(old_seen.contains(x));
                                    let w = choose|w: int| 0 <= w < old_seen.len() && old_seen[w] == x;
                                    assert(sv[w] == x);
                                } else {
                                    assert(sv[old_seen.len() as int] == x);
                                }
                            }
                        }
                    }
                } else {
                    proof {
                        assert forall|x: Seq<char>|
                            strings_view(seen@).contains(x) <==> exists|j: int|
                                0 <= j < next.len() && #[trigger] usable_path(str_member(next[j].1, "path"@)) && str_member(
                                    next[j].1,
                                    "path"@,
                                ) == x by {
                            if strings_view(seen@).contains(x) {
                                let j = choose|j: int|
                                    0 <= j < done.len() && #[trigger] usable_path(str_member(done[j].1, "path"@))
                                        && str_member(done[j].1, "path"@) == x;
                                assert(next[j] == done[j]);
                            }
                            if exists|j: int|
                                0 <= j < next.len() && #[trigger] usable_path(str_member(next[j].1, "path"@)) && str_member(
                                    next[j].1,
                                    "path"@,
                                ) == x {
                                let j = choose|j: int|
                                    0 <= j < next.len() && #[trigger] usable_path(str_member(next[j].1, "path"@))
                                        && str_member(next[j].1, "path"@) == x;
                                if j < done.len() {
                                    assert(next[j] == done[j]);
                                }
                            }
                        }
                    }
                }
                proof {
                    done = next;
                }
                b += 1;
            }
            assert(cands.take(value.items@.len() as int) =~= cands);
        } else {
            assert(cands =~= Seq::<(bool, JsonView)>::empty());
            assert(base + cands =~= base);
        }
        assert(all_candidates(inputs@, a + 1) == all_candidates(inputs@, a as int) + cands);
        a += 1;
    }
    files
}

/// The type of a file by its extension: image, text or other.
pub open spec fn file_type_spec(extension: Seq<char>) -> Seq<char> {
    if extension == "png"@ || extension == "jpg"@ || extension == "jpeg"@ || extension == "webp"@ || extension
        == "bmp"@ || extension == "gif"@ {
        "image"@
    } else if extension == "txt"@ || extension == "md"@ || extension == "json"@ {
        "text"@
    } else {
        "other"@
    }
}

/// The type of a file by its extension.
pub fn file_type_from_extension(extension: &str) -> (r: &'static str)
    ensures
        r@ == file_type_spec(extension@),
{
    if str_eq(extension, "png") || str_eq(extension, "jpg") || str_eq(extension, "jpeg") || str_eq(extension, "webp")
        || str_eq(extension, "bmp") || str_eq(extension, "gif") {
        "image"
    } else if str_eq(extension, "txt") || str_eq(extension, "md") || str_eq(extension, "json") {
        "text"
    } else {
        "other"
    }
}

/// The sort keys of audited files: by path.
pub open spec fn file_keys(files: Seq<AuditFile>) -> Seq<(u128, Seq<char>)> {
    files.map_values(|f: AuditFile| (0u128, f.path@))
}

/// The files without a file right after another with the same path.
pub open spec fn dedup_by_path(s: Seq<AuditFile>) -> Seq<AuditFile>
    decreases s.len(),
{
    if s.len() == 0 {
        Seq::empty()
    } else if s.len() >= 2 && s.last().path@ == s[s.len() - 2].path@ {
        dedup_by_path(s.drop_last())
    } else {
        dedup_by_path(s.drop_last()).push(s.last())
    }
}

/// A copy of an audited file.
fn copy_file(f: &AuditFile) -> (r: AuditFile)
    ensures
        r == *f,
{
    AuditFile {
        path: f.path.clone(),
        name: f.name.clone(),
        extension: f.extension.clone(),
        file_type: f.file_type.clone(),
        source_asset_id: f.source_asset_id.clone(),
        source_asset_name: f.source_asset_name.clone(),
        relative_path: f.relative_path.clone(),
    }
}

/// The audited files ordered by path, each path once (the first of a run of
/// files with the same path stays).
pub fn sort_dedup_files(files: Vec<AuditFile>) -> (r: Vec<AuditFile>)
    ensures
        exists|sorted: Seq<AuditFile>| #[trigger] crate::order::sorted_by_rank(files@, file_keys(files@), sorted) && r@ == dedup_by_path(sorted),
{
    let mut keys: Vec<(u128, String)> = Vec::new();
    let mut i: usize = 0;
    while i < files.len()
        invariant
            i <= files@.len(),
            keys@.len() == i,
            forall|k: int| 0 <= k < i ==> #[trigger] crate::order::keys_view(keys@)[k] == file_keys(files@)[k],
        decreases files@.len() - i,
    {
        let ghost before = crate::order::keys_view(keys@);
        keys.push((0u128, files[i].path.clone()));
        assert(crate::order::keys_view(keys@) =~= before.push(file_keys(files@)[i as int]));
        i += 1;
    }
    assert(crate::order::keys_view(keys@) =~= file_keys(files@));
    let ghost fv = files@;
    let sorted = crate::order::sort_by_rank(files, keys);
    let mut out: Vec<AuditFile> = Vec::new();
    let mut j: usize = 0;
    while j < sorted.len()
        invariant
            j <= sorted@.len(),
            out@ == dedup_by_path(sorted@.take(j as int)),
        decreases sorted@.len() - j,
    {
        let ghost t = sorted@.take(j + 1);
        assert(t.drop_last() =~= sorted@.take(j as int));
        assert(t.last() == sorted@[j as int]);
        if j >= 1 && str_eq(sorted[j].path.as_str(), sorted[j - 1].path.as_str()) {
            assert(t[t.len() - 2] == sorted@[j - 1]);
        } else {
            if j >= 1 {
                assert(t[t.len() - 2] == sorted@[j - 1]);
            }
            out.push(copy_file(&sorted[j]));
        }
        j += 1;
    }
    assert(sorted@.take(sorted@.len() as int) =~= sorted@);
    out
}

} // verus!
