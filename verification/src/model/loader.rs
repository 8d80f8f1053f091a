use vstd::prelude::*;

use crate::json::{parse_json, parsed_json};
use crate::quant::schema::{described, QuantSchema};
use crate::ranking::{
    lemma_ranked, lemma_ranked_contains, lemma_ranked_differ, lemma_views_push, ranked, sort_ranked,
    views, Ranked,
};
use crate::text::{
    chars_of, contains_text, count_text, decimal_digits, decimal_value, digits, ends_with,
    is_text_before, join2, lemma_decimal_round_trip, lemma_text_order, lemma_text_order_transitive,
    nonempty, nonempty_trimmed, parse_count, parsed_count, starts_with, text_before, text_contains,
    text_ends, text_eq, text_starts, text_view, texts, trimmed,
};

verus! {

/// File names in the order of their characters.
pub struct FileName {
    pub name: String,
}

impl Ranked for FileName {
    type V = Seq<char>;

    open spec fn rank_view(self) -> Seq<char> {
        self.name@
    }

    open spec fn before(a: Seq<char>, b: Seq<char>) -> bool {
        text_before(a, b)
    }

    fn is_before(&self, other: &Self) -> (r: bool) {
        is_text_before(self.name.as_str(), other.name.as_str())
    }

    proof fn asymmetric(a: Seq<char>, b: Seq<char>) {
        lemma_text_order(a, b);
    }

    proof fn not_before_transitive(a: Seq<char>, b: Seq<char>, c: Seq<char>) {
        lemma_text_order(a, b);
        lemma_text_order(b, c);
        lemma_text_order(a, c);
        if text_before(c, a) {
            if a == b {
            } else if b == c {
            } else {
                lemma_text_order_transitive(a, b, c);
            }
        }
    }
}

/// The texts without repetitions, each where it came first.
pub open spec fn distinct(s: Seq<Seq<char>>) -> Seq<Seq<char>>
    decreases s.len(),
{
    if s.len() == 0 {
        s
    } else if distinct(s.drop_last()).contains(s.last()) {
        distinct(s.drop_last())
    } else {
        distinct(s.drop_last()).push(s.last())
    }
}

/// The texts once each, in order.
pub open spec fn sorted_once(s: Seq<Seq<char>>) -> Seq<Seq<char>> {
    ranked::<FileName>(distinct(s))
}

/// The path leaves its directory: it is absolute, or one of its components is the
/// parent.
pub open spec fn traverses(path: Seq<char>) -> bool {
    ||| path.len() > 0 && path[0] == '/'
    ||| exists|i: int| #[trigger] parent_at(path, i)
}

/// The parent is a component of the path here.
pub open spec fn parent_at(path: Seq<char>, i: int) -> bool {
    &&& 0 <= i
    &&& i + 2 <= path.len()
    &&& path[i] == '.'
    &&& path[i + 1] == '.'
    &&& i == 0 || path[i - 1] == '/'
    &&& i + 2 == path.len() || path[i + 2] == '/'
}

/// Whether a path leaves its directory.
pub fn has_traversal(path: &str) -> (r: bool)
    ensures
        r == traverses(path@),
{
    let chars = chars_of(path);
    let n: usize = chars.len();
    if n > 0 && chars[0] == '/' {
        return true;
    }
    if n < 2 {
        return false;
    }
    let mut i: usize = 0;
    while i <= n - 2
        invariant
            n == chars@.len(),
            2 <= n,
            i <= n - 1,
            chars@ == path@,
            forall|j: int| 0 <= j < i ==> !#[trigger] parent_at(path@, j),
        decreases n - i,
    {
        if chars[i] == '.' && chars[i + 1] == '.' && (i == 0 || chars[i - 1] == '/') && (i == n - 2
            || chars[i + 2] == '/') {
            assert(parent_at(path@, i as int));
            return true;
        }
        i = i + 1;
    }
    false
}

/// A path that stays in its directory neither begins at the root nor goes up.
pub proof fn lemma_no_traversal(path: Seq<char>, i: int)
    requires
        !traverses(path),
    ensures
        !parent_at(path, i),
        path.len() > 0 ==> path[0] != '/',
{
}

fn names_of(names: &Vec<String>) -> (list: Vec<FileName>)
    ensures
        views(list@) == distinct(texts(names@)),
{
    let ghost all = texts(names@);
    let mut list: Vec<FileName> = Vec::new();
    let mut i: usize = 0;
    assert(all.take(0) =~= Seq::<Seq<char>>::empty());
    assert(views(list@) =~= distinct(all.take(0)));
    while i < names.len()
        invariant
            i <= names@.len(),
            all == texts(names@),
            views(list@) == distinct(all.take(i as int)),
        decreases names@.len() - i,
    {
        assert(all.take(i as int + 1).drop_last() =~= all.take(i as int));
        assert(all.take(i as int + 1).last() == names@[i as int]@);
        let mut found = false;
        let mut j: usize = 0;
        while j < list.len()
            invariant
                j <= list@.len(),
                i < names@.len(),
                found == exists|k: int| 0 <= k < j && views(list@)[k] == names@[i as int]@,
            decreases list@.len() - j,
        {
            assert(views(list@)[j as int] == list@[j as int].name@);
            if text_eq(list[j].name.as_str(), names[i].as_str()) {
                found = true;
            }
            j = j + 1;
        }
        assert(found == views(list@).contains(names@[i as int]@));
        if !found {
            let ghost before = list@;
            let entry = FileName { name: names[i].clone() };
            proof {
                lemma_views_push(before, entry);
            }
            list.push(entry);
        }
        i = i + 1;
    }
    assert(all.take(i as int) =~= all);
    list
}

/// The name leaves the directory, and none of the names before it does.
pub open spec fn first_traversal(names: Seq<Seq<char>>, name: Seq<char>) -> bool {
    &&& traverses(name)
    &&& exists|i: int|
        #![trigger names[i]]
        0 <= i < names.len() && names[i] == name && forall|j: int|
            0 <= j < i ==> !traverses(#[trigger] names[j])
}

/// The name is missing, and none of the names before it is.
pub open spec fn first_missing(
    names: Seq<Seq<char>>,
    present: Seq<Seq<char>>,
    name: Seq<char>,
) -> bool {
    &&& !present.contains(name)
    &&& exists|i: int|
        #![trigger names[i]]
        0 <= i < names.len() && names[i] == name && forall|j: int|
            0 <= j < i ==> present.contains(#[trigger] names[j])
}

/// Why an index of shards is refused.
#[derive(Debug, Clone, PartialEq, Eq)]
pub enum ShardIndexError {
    /// The name would leave the model's directory.
    PathTraversal(String),
    /// The file is not there.
    NotFound(String),
}

impl ShardIndexError {
    /// The message, where a missing file is shown by its path.
    pub open spec fn text(self, path: Seq<char>) -> Seq<char> {
        match self {
            ShardIndexError::PathTraversal(name) => "path traversal detected in shard filename: "@
                + name@,
            ShardIndexError::NotFound(_) => "shard file not found: "@ + path,
        }
    }

    pub fn message(&self, path: &str) -> (text: String)
        ensures
            text@ == self.text(path@),
    {
        match self {
            ShardIndexError::PathTraversal(name) => join2(
                "path traversal detected in shard filename: ",
                name.as_str(),
            ),
            ShardIndexError::NotFound(_) => join2("shard file not found: ", path),
        }
    }
}

/// The shard files of an index: the file names that its weights are mapped to, once
/// each and in order. Names that leave the directory are refused first, then files
/// that are not present, unless the index is only a plan; of each kind the first one
/// in order is reported.
pub fn load_shard_index(
    weight_files: &Vec<String>,
    present: &Vec<String>,
    planning: bool,
) -> (result: Result<Vec<String>, ShardIndexError>)
    ensures
        ({
            let sorted = sorted_once(texts(weight_files@));
            match result {
                Ok(files) => {
                    &&& texts(files@) == sorted
                    &&& forall|i: int| 0 <= i < sorted.len() ==> !traverses(#[trigger] sorted[i])
                    &&& planning || forall|i: int|
                        0 <= i < sorted.len() ==> texts(present@).contains(#[trigger] sorted[i])
                },
                Err(ShardIndexError::PathTraversal(name)) => first_traversal(sorted, name@),
                Err(ShardIndexError::NotFound(name)) => {
                    &&& forall|i: int| 0 <= i < sorted.len() ==> !traverses(#[trigger] sorted[i])
                    &&& !planning
                    &&& first_missing(sorted, texts(present@), name@)
                },
            }
        }),
{
    let sorted = sort_ranked(names_of(weight_files));
    let ghost all = sorted_once(texts(weight_files@));
    assert(views(sorted@) == all);
    let mut files: Vec<String> = Vec::new();
    let mut i: usize = 0;
    assert(texts(files@) =~= all.take(0));
    while i < sorted.len()
        invariant
            i <= sorted@.len(),
            views(sorted@) == all,
            all == sorted_once(texts(weight_files@)),
            texts(files@) == all.take(i as int),
            files@.len() == i,
            forall|j: int| 0 <= j < i ==> !traverses(#[trigger] all[j]),
        decreases sorted@.len() - i,
    {
        assert(views(sorted@)[i as int] == sorted@[i as int].name@);
        if has_traversal(sorted[i].name.as_str()) {
            assert(all[i as int] == sorted@[i as int].name@);
            return Err(ShardIndexError::PathTraversal(sorted[i].name.clone()));
        }
        files.push(sorted[i].name.clone());
        i = i + 1;
        assert(texts(files@) =~= all.take(i as int));
    }
    assert(all.take(i as int) =~= all);
    if !planning {
        let mut k: usize = 0;
        while k < files.len()
            invariant
                k <= files@.len(),
                texts(files@) == all,
                all == sorted_once(texts(weight_files@)),
                !planning,
                forall|j: int| 0 <= j < all.len() ==> !traverses(#[trigger] all[j]),
                forall|j: int| 0 <= j < k ==> texts(present@).contains(#[trigger] all[j]),
            decreases files@.len() - k,
        {
            assert(texts(files@)[k as int] == files@[k as int]@);
            if !has_name(present, files[k].as_str()) {
                return Err(ShardIndexError::NotFound(files[k].clone()));
            }
            k = k + 1;
        }
    }
    Ok(files)
}

/// Shards come in strictly rising order.
pub proof fn lemma_shards_rising(s: Seq<Seq<char>>, i: int, j: int)
    requires
        0 <= i < j < sorted_once(s).len(),
    ensures
        text_before(sorted_once(s)[i], sorted_once(s)[j]),
{
    broadcast use vstd::seq_lib::group_to_multiset_ensures;

    let once = distinct(s);
    let sorted = sorted_once(s);
    lemma_ranked::<FileName>(once);
    assert(!FileName::before(sorted[j], sorted[i]));
    lemma_distinct(s);
    once.lemma_multiset_has_no_duplicates();
    sorted.lemma_multiset_has_no_duplicates_conv();
    lemma_text_order(sorted[i], sorted[j]);
}

/// Nothing is lost, and nothing comes twice.
proof fn lemma_distinct(s: Seq<Seq<char>>)
    ensures
        distinct(s).no_duplicates(),
    decreases s.len(),
{
    if s.len() > 0 {
        lemma_distinct(s.drop_last());
        let front = distinct(s.drop_last());
        if !front.contains(s.last()) {
            assert forall|i: int, j: int|
                0 <= i < front.len() + 1 && 0 <= j < front.len() + 1 && i != j implies front.push(
                s.last(),
            )[i] != front.push(s.last())[j] by {
                if i < front.len() && j < front.len() {
                    assert(front[i] != front[j]);
                } else if i < front.len() {
                    assert(front.contains(front[i]));
                } else {
                    assert(front.contains(front[j]));
                }
            }
        }
    }
}

/// What is seen of a model's directory.
#[derive(Debug, Clone)]
pub struct DirectoryFacts {
    pub is_dir: bool,
    /// The directory has an index of its shards.
    pub has_index: bool,
    /// The directory has its weights in a single file.
    pub has_single: bool,
    /// The names of its files, as the directory lists them.
    pub names: Vec<String>,
}

/// Where the weights of a model are.
#[derive(Debug, Clone)]
pub enum ShardSource {
    /// In the files that the index names.
    Index,
    /// In these files.
    Files(Vec<String>),
}

/// Why no weights are found.
#[derive(Debug, Clone, Copy, PartialEq, Eq, Structural)]
pub enum ShardError {
    MissingDirectory,
    NoFiles,
}

/// A count with zeros in front, five digits at least.
pub open spec fn padded(n: usize) -> Seq<char> {
    if digits(n).len() >= 5 {
        digits(n)
    } else {
        Seq::new((5 - digits(n).len()) as nat, |i: int| '0') + digits(n)
    }
}

/// The name belongs to the shard with the number.
pub open spec fn numbered(name: Seq<char>, n: usize) -> bool {
    starts_with(name, "model-"@ + padded(n) + "-of-"@) && ends_with(name, ".safetensors"@)
}

/// The first of the names that belongs to the shard with the number.
pub open spec fn shard_named(names: Seq<Seq<char>>, n: usize) -> Option<Seq<char>>
    decreases names.len(),
{
    if names.len() == 0 {
        None
    } else if numbered(names[0], n) {
        Some(names[0])
    } else {
        shard_named(names.skip(1), n)
    }
}

/// The shards numbered from `n` on, up to the first that is missing.
pub open spec fn numbered_shards(names: Seq<Seq<char>>, n: nat) -> Seq<Seq<char>>
    decreases 1000 - n,
{
    if n >= 1000 {
        Seq::empty()
    } else {
        match shard_named(names, n as usize) {
            Some(name) => seq![name] + numbered_shards(names, n + 1),
            None => Seq::empty(),
        }
    }
}

fn pad_count(n: usize) -> (text: String)
    ensures
        text@ == padded(n),
{
    let number = count_text(n);
    let len: usize = chars_of(number.as_str()).len();
    if len >= 5 {
        return number;
    }
    let mut text = String::new();
    let mut i: usize = len;
    while i < 5
        invariant
            len <= i <= 5,
            text@ == Seq::new((i - len) as nat, |k: int| '0'),
        decreases 5 - i,
    {
        text.push('0');
        i = i + 1;
        assert(text@ =~= Seq::new((i - len) as nat, |k: int| '0'));
    }
    text.append(number.as_str());
    text
}

fn find_shard_by_index(names: &Vec<String>, index: usize) -> (found: Option<String>)
    ensures
        text_view(found) == shard_named(texts(names@), index),
{
    let mut prefix = "model-".to_owned();
    prefix.append(pad_count(index).as_str());
    prefix.append("-of-");
    let ghost all = texts(names@);
    let mut i: usize = 0;
    assert(all.skip(0) =~= all);
    while i < names.len()
        invariant
            i <= names@.len(),
            all == texts(names@),
            prefix@ == "model-"@ + padded(index) + "-of-"@,
            shard_named(all, index) == shard_named(all.skip(i as int), index),
        decreases names@.len() - i,
    {
        assert(all.skip(i as int)[0] == names@[i as int]@);
        if text_starts(names[i].as_str(), prefix.as_str()) && text_ends(
            names[i].as_str(),
            ".safetensors",
        ) {
            return Some(names[i].clone());
        }
        assert(all.skip(i as int).skip(1) =~= all.skip(i as int + 1));
        i = i + 1;
    }
    None
}

/// Where the weights of a model are: in the shards of its index, in its single file,
/// or in shards numbered from zero.
pub fn find_safetensor_shards(facts: &DirectoryFacts) -> (result: Result<ShardSource, ShardError>)
    ensures
        match result {
            Ok(ShardSource::Index) => facts.is_dir && facts.has_index,
            Ok(ShardSource::Files(files)) => {
                &&& facts.is_dir && !facts.has_index
                &&& texts(files@) == if facts.has_single {
                    seq!["model.safetensors"@]
                } else {
                    numbered_shards(texts(facts.names@), 0)
                }
                &&& files@.len() > 0
            },
            Err(ShardError::MissingDirectory) => !facts.is_dir,
            Err(ShardError::NoFiles) => facts.is_dir && !facts.has_index && !facts.has_single
                && numbered_shards(texts(facts.names@), 0).len() == 0,
        },
{
    if !facts.is_dir {
        return Err(ShardError::MissingDirectory);
    }
    if facts.has_index {
        return Ok(ShardSource::Index);
    }
    if facts.has_single {
        let mut files: Vec<String> = Vec::new();
        files.push("model.safetensors".to_owned());
        assert(texts(files@) =~= seq!["model.safetensors"@]);
        return Ok(ShardSource::Files(files));
    }
    let ghost names = texts(facts.names@);
    let mut shards: Vec<String> = Vec::new();
    let mut i: usize = 0;
    assert(texts(shards@) + numbered_shards(names, 0) =~= numbered_shards(names, 0));
    while i < 1000
        invariant_except_break
            i <= 1000,
            names == texts(facts.names@),
            texts(shards@) + numbered_shards(names, i as nat) == numbered_shards(names, 0),
        ensures
            texts(shards@) == numbered_shards(names, 0),
        decreases 1000 - i,
    {
        match find_shard_by_index(&facts.names, i) {
            Some(name) => {
                let ghost before = texts(shards@);
                let ghost added = name@;
                shards.push(name);
                assert(texts(shards@) =~= before.push(added));
                assert(before + (seq![added] + numbered_shards(names, (i + 1) as nat))
                    =~= before.push(added) + numbered_shards(names, (i + 1) as nat));
            },
            None => {
                assert(texts(shards@) + Seq::<Seq<char>>::empty() =~= texts(shards@));
                break;
            },
        }
        i = i + 1;
        assert(i == 1000 ==> texts(shards@) + numbered_shards(names, i as nat) =~= texts(shards@));
    }
    if shards.len() == 0 {
        return Err(ShardError::NoFiles);
    }
    Ok(ShardSource::Files(shards))
}

/// The names that end as weight files do, in order.
pub open spec fn weight_files(names: Seq<Seq<char>>) -> Seq<Seq<char>> {
    names.filter(|name: Seq<char>| ends_with(name, ".safetensors"@))
}

/// Which files of a repository are to be fetched; `None` where it has no weights.
pub fn files_to_download(names: &Vec<String>) -> (plan: Option<ShardSource>)
    ensures
        ({
            let all = texts(names@);
            match plan {
                Some(ShardSource::Index) => all.contains("model.safetensors.index.json"@),
                Some(ShardSource::Files(files)) => {
                    &&& !all.contains("model.safetensors.index.json"@)
                    &&& texts(files@) == if all.contains("model.safetensors"@) {
                        seq!["model.safetensors"@]
                    } else {
                        ranked::<FileName>(weight_files(all))
                    }
                    &&& files@.len() > 0
                },
                None => {
                    &&& !all.contains("model.safetensors.index.json"@)
                    &&& !all.contains("model.safetensors"@)
                    &&& weight_files(all).len() == 0
                },
            }
        }),
{
    if has_name(names, "model.safetensors.index.json") {
        return Some(ShardSource::Index);
    }
    if has_name(names, "model.safetensors") {
        let mut files: Vec<String> = Vec::new();
        files.push("model.safetensors".to_owned());
        assert(texts(files@) =~= seq!["model.safetensors"@]);
        return Some(ShardSource::Files(files));
    }
    let ghost all = texts(names@);
    let mut list: Vec<FileName> = Vec::new();
    let mut i: usize = 0;
    assert(all.take(0) =~= Seq::<Seq<char>>::empty());
    proof {
        reveal(Seq::filter);
    }
    assert(views(list@) =~= weight_files(all.take(0)));
    while i < names.len()
        invariant
            i <= names@.len(),
            all == texts(names@),
            views(list@) == weight_files(all.take(i as int)),
        decreases names@.len() - i,
    {
        proof {
            reveal(Seq::filter);
            assert(all.take(i as int + 1).drop_last() =~= all.take(i as int));
            assert(all.take(i as int + 1).last() == names@[i as int]@);
        }
        if text_ends(names[i].as_str(), ".safetensors") {
            let ghost before = list@;
            let entry = FileName { name: names[i].clone() };
            proof {
                lemma_views_push(before, entry);
            }
            list.push(entry);
        }
        i = i + 1;
    }
    assert(all.take(i as int) =~= all);
    let sorted = sort_ranked(list);
    let mut files: Vec<String> = Vec::new();
    let mut k: usize = 0;
    while k < sorted.len()
        invariant
            k <= sorted@.len(),
            files@.len() == k,
            forall|j: int| 0 <= j < k ==> (#[trigger] files@[j])@ == views(sorted@)[j],
        decreases sorted@.len() - k,
    {
        assert(views(sorted@)[k as int] == sorted@[k as int].name@);
        files.push(sorted[k].name.clone());
        k = k + 1;
    }
    assert(texts(files@) =~= views(sorted@));
    proof {
        lemma_ranked::<FileName>(weight_files(all));
    }
    if files.len() == 0 {
        return None;
    }
    Some(ShardSource::Files(files))
}

fn has_name(names: &Vec<String>, name: &str) -> (r: bool)
    ensures
        r == texts(names@).contains(name@),
{
    let mut i: usize = 0;
    while i < names.len()
        invariant
            i <= names@.len(),
            forall|j: int| 0 <= j < i ==> #[trigger] texts(names@)[j] != name@,
        decreases names@.len() - i,
    {
        assert(texts(names@)[i as int] == names@[i as int]@);
        if text_eq(names[i].as_str(), name) {
            return true;
        }
        i = i + 1;
    }
    false
}

/// The token among the values of some settings, in the order of preference: the
/// first that is set, without white space around it, and not where that is all there
/// is.
pub open spec fn chosen_token(values: Seq<Option<Seq<char>>>) -> Option<Seq<char>>
    decreases values.len(),
{
    if values.len() == 0 {
        None
    } else {
        match values[0] {
            Some(value) => nonempty(value),
            None => chosen_token(values.skip(1)),
        }
    }
}

pub fn token_from_settings(values: &Vec<Option<String>>) -> (token: Option<String>)
    ensures
        text_view(token) == chosen_token(
            Seq::new(values@.len(), |i: int| text_view(values@[i])),
        ),
{
    let ghost all = Seq::new(values@.len(), |i: int| text_view(values@[i]));
    let mut i: usize = 0;
    assert(all.skip(0) =~= all);
    while i < values.len()
        invariant
            i <= values@.len(),
            all == Seq::new(values@.len(), |i: int| text_view(values@[i])),
            chosen_token(all) == chosen_token(all.skip(i as int)),
        decreases values@.len() - i,
    {
        assert(all.skip(i as int)[0] == text_view(values@[i as int]));
        if let Some(value) = &values[i] {
            return nonempty_trimmed(value.as_str());
        }
        assert(all.skip(i as int).skip(1) =~= all.skip(i as int + 1));
        i = i + 1;
    }
    None
}

/// How many files are fetched at once: four, unless the setting gives a positive
/// count.
pub fn hf_download_concurrency(setting: &Option<String>) -> (n: usize)
    ensures
        n > 0,
        n == match text_view(*setting) {
            Some(value) => match parsed_count(value) {
                Some(count) => if count > 0 {
                    count
                } else {
                    4
                },
                None => 4,
            },
            None => 4int,
        },
{
    if let Some(value) = setting {
        if let Some(count) = parse_count(value.as_str()) {
            if count > 0 {
                return count;
            }
        }
    }
    4
}

/// How many files a batch of downloads has.
pub fn batch_size(concurrency: usize, files: usize) -> (n: usize)
    requires
        files > 0,
        concurrency > 0,
    ensures
        n == if concurrency < files {
            concurrency
        } else {
            files
        },
        n > 0,
{
    if concurrency < files {
        concurrency
    } else {
        files
    }
}

/// The failure looks like missing or insufficient authorization.
pub fn is_auth_error(text: &str) -> (r: bool)
    ensures
        r == (contains_text(text@, "401"@) || contains_text(text@, "403"@) || contains_text(
            text@,
            "Unauthorized"@,
        ) || contains_text(text@, "Forbidden"@)),
{
    text_contains(text, "401") || text_contains(text, "403") || text_contains(text, "Unauthorized")
        || text_contains(text, "Forbidden")
}

/// Whether a download that failed is tried again with a token that is asked for: only
/// where no token was given and the failure is one of authorization.
pub fn should_prompt_for_token(text: &str, has_token: bool) -> (r: bool)
    ensures
        r == (!has_token && (contains_text(text@, "401"@) || contains_text(text@, "403"@)
            || contains_text(text@, "Unauthorized"@) || contains_text(text@, "Forbidden"@))),
{
    !has_token && is_auth_error(text)
}

/// The embedding serves as the head too.
pub fn is_tied(has_lm_head: bool, has_embed: bool) -> (r: bool)
    ensures
        r == (!has_lm_head && has_embed),
{
    !has_lm_head && has_embed
}

/// The quantization schema in the text of a checkpoint's configuration; an error
/// where the text is not JSON.
pub fn checkpoint_quant_schema(content: &str) -> (result: Result<Option<QuantSchema>, ()>)
    ensures
        match result {
            Err(_) => parsed_json(content@) is None,
            Ok(None) => parsed_json(content@) is Some && parsed_json(content@)->0.member(
                "quantization_config"@,
            ) is None,
            Ok(Some(schema)) => {
                &&& parsed_json(content@) is Some
                &&& parsed_json(content@)->0.member("quantization_config"@) is Some
                &&& schema@ == described(
                    parsed_json(content@)->0.member("quantization_config"@)->0,
                )
            },
        },
{
    match parse_json(content) {
        None => Err(()),
        Some(json) => match json.get("quantization_config") {
            None => Ok(None),
            Some(value) => Ok(QuantSchema::from_hf_value(value)),
        },
    }
}

/// Sixteen-bit numbers from their bytes, the least significant first. A last odd
/// byte is left out.
pub fn widen_u16(bytes: &[u8]) -> (values: Vec<u32>)
    ensures
        values@.len() == bytes@.len() / 2,
        forall|i: int|
            0 <= i < values@.len() ==> #[trigger] values@[i] == bytes@[2 * i] + 256 * bytes@[2 * i
                + 1],
{
    let n: usize = bytes.len() / 2;
    let mut values: Vec<u32> = Vec::new();
    let mut i: usize = 0;
    while i < n
        invariant
            i <= n,
            n == bytes@.len() / 2,
            2 * n <= bytes@.len() <= usize::MAX,
            values@.len() == i,
            forall|j: int|
                0 <= j < i ==> #[trigger] values@[j] == bytes@[2 * j] + 256 * bytes@[2 * j + 1],
        decreases n - i,
    {
        values.push(bytes[2 * i] as u32 + 256 * bytes[2 * i + 1] as u32);
        i = i + 1;
    }
    values
}

/// A path leaves its directory where it starts at the root, or where one of its parts,
/// between slashes, is two dots.
pub proof fn lemma_traverses(path: Seq<char>)
    ensures
        traverses(path) <==> path.len() > 0 && path[0] == '/' || exists|a: Seq<char>, b: Seq<char>|
            (a.len() == 0 || a[a.len() - 1] == '/') && (b.len() == 0 || b[0] == '/') && path
                == #[trigger] (a + ".."@ + b),
{
    reveal_strlit("..");
    if exists|i: int| #[trigger] parent_at(path, i) {
        let i = choose|i: int| #[trigger] parent_at(path, i);
        let a = path.take(i);
        let b = path.skip(i + 2);
        assert(path =~= a + ".."@ + b);
    }
    if exists|a: Seq<char>, b: Seq<char>|
        (a.len() == 0 || a[a.len() - 1] == '/') && (b.len() == 0 || b[0] == '/') && path
            == #[trigger] (a + ".."@ + b) {
        let (a, b) = choose|a: Seq<char>, b: Seq<char>|
            (a.len() == 0 || a[a.len() - 1] == '/') && (b.len() == 0 || b[0] == '/') && path
                == #[trigger] (a + ".."@ + b);
        assert(parent_at(path, a.len() as int));
    }
}

/// The list of shards holds each name of the index once, and no other.
pub proof fn lemma_shards_listed(s: Seq<Seq<char>>, name: Seq<char>)
    ensures
        sorted_once(s).contains(name) <==> s.contains(name),
        sorted_once(s).no_duplicates(),
{
    lemma_distinct(s);
    lemma_distinct_contains(s, name);
    lemma_ranked_contains::<FileName>(distinct(s), name);
    lemma_ranked_differ::<FileName>(distinct(s));
}

proof fn lemma_distinct_contains(s: Seq<Seq<char>>, name: Seq<char>)
    ensures
        distinct(s).contains(name) <==> s.contains(name),
    decreases s.len(),
{
    if s.len() > 0 {
        let front = s.drop_last();
        lemma_distinct_contains(front, name);
        let some = distinct(front);
        assert(s.contains(name) <==> front.contains(name) || name == s.last()) by {
            if front.contains(name) {
                let i = choose|i: int| 0 <= i < front.len() && front[i] == name;
                assert(s[i] == name);
            }
            if name == s.last() {
                assert(s[s.len() - 1] == name);
            }
            if s.contains(name) && name != s.last() {
                let i = choose|i: int| 0 <= i < s.len() && s[i] == name;
                assert(front[i] == name);
            }
        }
        assert(some.push(s.last()).contains(name) <==> some.contains(name) || name == s.last()) by {
            if some.contains(name) {
                let i = choose|i: int| 0 <= i < some.len() && some[i] == name;
                assert(some.push(s.last())[i] == name);
            }
            assert(some.push(s.last())[some.len() as int] == s.last());
        }
    }
}

/// The number of a shard is written with five digits or more.
pub proof fn lemma_padded(n: usize)
    ensures
        padded(n).len() >= 5,
        decimal_value(padded(n)) == n,
        n < 100000 ==> padded(n).len() == 5,
{
    lemma_decimal_round_trip(n as nat);
    let own = digits(n);
    if own.len() < 5 {
        let zeros = Seq::new((5 - own.len()) as nat, |i: int| '0');
        lemma_leading_zeros(zeros, own);
    }
    if n < 100000 {
        reveal_with_fuel(decimal_digits, 6);
        assert(digits(n).len() <= 5);
    }
}

proof fn lemma_leading_zeros(zeros: Seq<char>, text: Seq<char>)
    requires
        forall|i: int| 0 <= i < zeros.len() ==> zeros[i] == '0',
    ensures
        decimal_value(zeros + text) == decimal_value(text),
    decreases text.len(), zeros.len(),
{
    if text.len() > 0 {
        lemma_leading_zeros(zeros, text.drop_last());
        assert((zeros + text).drop_last() =~= zeros + text.drop_last());
    } else if zeros.len() > 0 {
        lemma_leading_zeros(zeros.drop_last(), text);
        assert((zeros + text).drop_last() =~= zeros.drop_last() + text);
        assert((zeros + text).last() == zeros[zeros.len() - 1]);
    }
}

/// Without an index the shards are those that are numbered from zero on, one for each
/// number, up to the first number that is missing.
pub proof fn lemma_numbered_shards(names: Seq<Seq<char>>, n: nat)
    requires
        n <= 1000,
    ensures
        ({
            let shards = numbered_shards(names, n);
            &&& n + shards.len() <= 1000
            &&& forall|i: int|
                0 <= i < shards.len() ==> {
                    &&& names.contains(#[trigger] shards[i])
                    &&& starts_with(shards[i], "model-"@ + padded((n + i) as usize) + "-of-"@)
                    &&& ends_with(shards[i], ".safetensors"@)
                }
            &&& n + shards.len() < 1000 ==> forall|k: int|
                0 <= k < names.len() ==> !numbered(
                    #[trigger] names[k],
                    (n + shards.len()) as usize,
                )
        }),
    decreases 1000 - n,
{
    if n < 1000 {
        lemma_shard_named(names, n as usize);
        lemma_numbered_shards(names, n + 1);
        let rest = numbered_shards(names, n + 1);
        let shards = numbered_shards(names, n);
        if shard_named(names, n as usize) is Some {
            assert forall|i: int| 0 <= i < shards.len() implies names.contains(
                #[trigger] shards[i],
            ) && starts_with(shards[i], "model-"@ + padded((n + i) as usize) + "-of-"@)
                && ends_with(shards[i], ".safetensors"@) by {
                if i > 0 {
                    assert(shards[i] == rest[i - 1]);
                    assert((n + 1 + (i - 1)) as usize == (n + i) as usize);
                }
            }
        }
    }
}

proof fn lemma_shard_named(names: Seq<Seq<char>>, n: usize)
    ensures
        match shard_named(names, n) {
            Some(name) => names.contains(name) && numbered(name, n),
            None => forall|k: int| 0 <= k < names.len() ==> !numbered(#[trigger] names[k], n),
        },
    decreases names.len(),
{
    if names.len() > 0 {
        let rest = names.skip(1);
        lemma_shard_named(rest, n);
        if numbered(names[0], n) {
            assert(names.contains(names[0]));
        } else {
            match shard_named(rest, n) {
                Some(name) => {
                    let i = choose|i: int| 0 <= i < rest.len() && rest[i] == name;
                    assert(names[i + 1] == name);
                },
                None => {
                    assert forall|k: int| 0 <= k < names.len() implies !numbered(
                        #[trigger] names[k],
                        n,
                    ) by {
                        if k > 0 {
                            assert(rest[k - 1] == names[k]);
                        }
                    }
                },
            }
        }
    }
}

/// The token is that of the first setting that is there, without white space around it; a
/// first setting that is blank gives none.
pub proof fn lemma_first_setting_counts(values: Seq<Option<Seq<char>>>, i: int)
    requires
        0 <= i < values.len(),
        values[i] is Some,
        forall|j: int| 0 <= j < i ==> #[trigger] values[j] is None,
    ensures
        chosen_token(values) == (if trimmed(values[i]->0).len() > 0 {
            Some(trimmed(values[i]->0))
        } else {
            None
        }),
    decreases i,
{
    if i > 0 {
        assert(values[0] is None);
        assert forall|j: int| 0 <= j < i - 1 implies #[trigger] values.skip(1)[j] is None by {
            assert(values[j + 1] is None);
        }
        lemma_first_setting_counts(values.skip(1), i - 1);
    }
}

} // verus!
