//! Catalog snapshots: the loaded packages grouped with their download
//! indices, and the flat file table those indices address.
//!
//! The builder walks the loaded packages in order and hands out indices
//! deterministically: each package's file payloads first, then its image
//! blobs, then its changelog text. An index is meaningful only against the
//! table built in the same walk; the pair is published together.

use vstd::prelude::*;
use vstd::utf8::encode_utf8;
use crate::hosted_plugins;
use crate::protocol::{FileV, InstallLocation, UpdateFile};
use crate::version::Version;

verus! {

/// One hosted file of a snapshot: where it installs, which download index
/// addresses it in the snapshot's table, and its size in bytes.
pub struct PluginFile {
    pub install: InstallLocation,
    pub index: u64,
    pub size: usize,
}

/// The wire view of one hosted file.
pub open spec fn file_view_of(f: PluginFile) -> FileV {
    FileV { install_location: f.install@, download_index: f.index, size: f.size }
}

impl PluginFile {
    /// The descriptor a query response carries for this file.
    pub fn to_update_file(&self) -> (r: UpdateFile)
        ensures
            r@ == file_view_of(*self),
    {
        UpdateFile {
            install_location: self.install.duplicate(),
            download_index: self.index,
            size: self.size,
        }
    }
}

/// One package of a catalog snapshot.
pub struct Plugin {
    pub name: String,
    pub plugin_version: Version,
    pub version_text: String,
    pub skyline_version: Version,
    pub beta: bool,
    pub files: Vec<PluginFile>,
    pub meta_name: Option<String>,
    pub meta_description: Option<String>,
    pub images_index: u64,
    pub image_count: u64,
    pub changelog_index: Option<u64>,
}

/// The payloads one loaded package contributes to the file table, in order:
/// its files, its images, its changelog text as bytes.
pub open spec fn file_payloads(q: hosted_plugins::Plugin) -> Seq<Seq<u8>> {
    q.files@.map_values(|f: (InstallLocation, Vec<u8>)| f.1@)
}

pub open spec fn image_payloads(q: hosted_plugins::Plugin) -> Seq<Seq<u8>> {
    match q.metadata.images {
        Some(im) => im.deep_view(),
        None => Seq::empty(),
    }
}

pub open spec fn changelog_payload(q: hosted_plugins::Plugin) -> Seq<Seq<u8>> {
    match q.metadata.changelog {
        Some(s) => seq![encode_utf8(s@)],
        None => Seq::empty(),
    }
}

pub open spec fn plugin_payloads(q: hosted_plugins::Plugin) -> Seq<Seq<u8>> {
    file_payloads(q) + image_payloads(q) + changelog_payload(q)
}

/// The whole file table of a snapshot built from `qs`.
pub open spec fn catalog_payloads(qs: Seq<hosted_plugins::Plugin>) -> Seq<Seq<u8>>
    decreases qs.len(),
{
    if qs.len() == 0 {
        Seq::empty()
    } else {
        plugin_payloads(qs[0]) + catalog_payloads(qs.drop_first())
    }
}

/// Where package `j`'s first payload sits in the table.
pub open spec fn table_offset(qs: Seq<hosted_plugins::Plugin>, j: int) -> int {
    catalog_payloads(qs.take(j)).len() as int
}

pub proof fn lemma_catalog_payloads_snoc(qs: Seq<hosted_plugins::Plugin>, q: hosted_plugins::Plugin)
    ensures
        catalog_payloads(qs.push(q)) == catalog_payloads(qs) + plugin_payloads(q),
    decreases qs.len(),
{
    if qs.len() == 0 {
        assert(qs.push(q)[0] == q);
        assert(qs.push(q).drop_first() =~= Seq::<hosted_plugins::Plugin>::empty());
        assert(catalog_payloads(Seq::<hosted_plugins::Plugin>::empty())
            =~= Seq::<Seq<u8>>::empty());
        assert(catalog_payloads(qs.push(q)) =~= catalog_payloads(qs) + plugin_payloads(q));
    } else {
        assert(qs.push(q)[0] == qs[0]);
        assert(qs.push(q).drop_first() =~= qs.drop_first().push(q));
        lemma_catalog_payloads_snoc(qs.drop_first(), q);
        assert(catalog_payloads(qs.push(q)) =~= catalog_payloads(qs) + plugin_payloads(q));
    }
}

/// What the catalog keeps of one loaded package whose payloads start at
/// table position `off`: every descriptive field carried over, file `k`
/// assigned index `off + k` with its payload's size, the images contiguous
/// after the files, and the changelog, when there is one, right after those.
pub open spec fn built_from(p: Plugin, q: hosted_plugins::Plugin, off: int) -> bool {
    &&& p.name == q.name
    &&& p.plugin_version == q.plugin_version
    &&& p.version_text == q.version_text
    &&& p.skyline_version == q.skyline_version
    &&& p.beta == q.beta
    &&& p.meta_name == q.metadata.name
    &&& p.meta_description == q.metadata.description
    &&& p.files@.len() == q.files@.len()
    &&& forall|k: int|
        0 <= k < q.files@.len() ==> {
            &&& (#[trigger] p.files@[k]).install == q.files@[k].0
            &&& p.files@[k].size == q.files@[k].1@.len()
            &&& p.files@[k].index as int == off + k
        }
    &&& p.images_index as int == off + q.files@.len()
    &&& p.image_count as int == image_payloads(q).len()
    &&& match q.metadata.changelog {
        Some(_) => p.changelog_index matches Some(c) && c as int == off + q.files@.len()
            + image_payloads(q).len(),
        None => p.changelog_index is None,
    }
}

/// The table splits at any package boundary.
pub proof fn lemma_catalog_payloads_split(qs: Seq<hosted_plugins::Plugin>, j: int)
    requires
        0 <= j <= qs.len(),
    ensures
        catalog_payloads(qs) == catalog_payloads(qs.take(j)) + catalog_payloads(qs.skip(j)),
    decreases j,
{
    if j == 0 {
        assert(qs.take(0) =~= Seq::<hosted_plugins::Plugin>::empty());
        assert(catalog_payloads(qs.take(0)) =~= Seq::<Seq<u8>>::empty());
        assert(qs.skip(0) =~= qs);
        assert(catalog_payloads(qs.take(0)) + catalog_payloads(qs) =~= catalog_payloads(qs));
    } else {
        assert(qs.len() > 0);
        let d = qs.drop_first();
        lemma_catalog_payloads_split(d, j - 1);
        assert(qs.take(j)[0] == qs[0]);
        assert(qs.take(j).drop_first() =~= d.take(j - 1));
        assert(qs.skip(j) =~= d.skip(j - 1));
        assert(catalog_payloads(qs.take(j)) =~= plugin_payloads(qs[0]) + catalog_payloads(
            d.take(j - 1),
        ));
        assert(catalog_payloads(qs) =~= catalog_payloads(qs.take(j)) + catalog_payloads(
            qs.skip(j),
        ));
    }
}

/// An index the builder assigns is valid against the table built in the same
/// walk and addresses exactly that file's payload: position
/// `table_offset(qs, j) + k` of the table holds the bytes of package `j`'s
/// file `k`.
pub proof fn lemma_table_index(qs: Seq<hosted_plugins::Plugin>, j: int, k: int)
    requires
        0 <= j < qs.len(),
        0 <= k < qs[j].files@.len(),
    ensures
        ({
            let t = catalog_payloads(qs);
            let off = table_offset(qs, j);
            &&& 0 <= off + k < t.len()
            &&& t[off + k] == qs[j].files@[k].1@
        }),
{
    lemma_catalog_payloads_split(qs, j);
    assert(qs.skip(j)[0] == qs[j]);
    assert(qs.skip(j).drop_first() =~= qs.skip(j + 1));
    assert(catalog_payloads(qs.skip(j)) =~= plugin_payloads(qs[j]) + catalog_payloads(
        qs.skip(j + 1),
    ));
    let off = table_offset(qs, j);
    assert(file_payloads(qs[j])[k] == qs[j].files@[k].1@);
    assert(plugin_payloads(qs[j])[k] == file_payloads(qs[j])[k]);
    assert(catalog_payloads(qs)[off + k] == plugin_payloads(qs[j])[k]);
}

/// Build one catalog snapshot: the packages with their download indices
/// assigned, and the file table those indices address. Index assignment is
/// deterministic in the input order: package `j`'s payloads occupy the
/// table positions from `table_offset(input, j)` on.
#[verifier::loop_isolation(false)]
pub fn build_catalog(input: Vec<hosted_plugins::Plugin>) -> (r: (Vec<Plugin>, Vec<Vec<u8>>))
    ensures
        r.1.deep_view() == catalog_payloads(input@),
        r.0@.len() == input@.len(),
        forall|j: int|
            0 <= j < input@.len() ==> built_from(
                #[trigger] r.0@[j],
                input@[j],
                table_offset(input@, j),
            ),
{
    let ghost in0 = input@;
    let mut rest = input;
    let mut plugins: Vec<Plugin> = Vec::new();
    let mut table: Vec<Vec<u8>> = Vec::new();
    proof {
        assert(in0.take(0) =~= Seq::<hosted_plugins::Plugin>::empty());
        assert(catalog_payloads(in0.take(0)) =~= Seq::<Seq<u8>>::empty());
        assert(table.deep_view() =~= Seq::<Seq<u8>>::empty());
        assert(rest@ =~= in0.skip(0));
    }
    while rest.len() > 0
        invariant
            plugins@.len() + rest@.len() == in0.len(),
            rest@ == in0.skip(plugins@.len() as int),
            table.deep_view() == catalog_payloads(in0.take(plugins@.len() as int)),
            forall|j: int|
                0 <= j < plugins@.len() ==> built_from(
                    #[trigger] plugins@[j],
                    in0[j],
                    table_offset(in0, j),
                ),
        decreases rest@.len(),
    {
        let ghost j = plugins@.len() as int;
        let ghost base = table.deep_view().len() as int;
        let q = rest.remove(0);
        proof {
            assert(in0.skip(j)[0] == in0[j]);
            assert(q == in0[j]);
            assert(in0.skip(j).remove(0) =~= in0.skip(j + 1));
            assert(base == table_offset(in0, j));
        }
        let hosted_plugins::Plugin {
            name,
            plugin_version,
            version_text,
            files,
            skyline_version,
            beta,
            metadata,
        } = q;
        let ghost files0 = files@;
        let ghost fp = file_payloads(in0[j]);
        proof {
            assert(fp.len() == files0.len());
            assert(fp.take(0) =~= Seq::<Seq<u8>>::empty());
            assert(table.deep_view() =~= catalog_payloads(in0.take(j)) + fp.take(0));
        }
        let mut fs = files;
        let mut pfiles: Vec<PluginFile> = Vec::new();
        while fs.len() > 0
            invariant
                pfiles@.len() + fs@.len() == files0.len(),
                fs@ == files0.skip(pfiles@.len() as int),
                table.deep_view() == catalog_payloads(in0.take(j)) + fp.take(
                    pfiles@.len() as int,
                ),
                forall|k: int|
                    0 <= k < pfiles@.len() ==> {
                        &&& (#[trigger] pfiles@[k]).install == files0[k].0
                        &&& pfiles@[k].size == files0[k].1@.len()
                        &&& pfiles@[k].index as int == base + k
                    },
            decreases fs@.len(),
        {
            let ghost k = pfiles@.len() as int;
            let fd = fs.remove(0);
            proof {
                assert(files0.skip(k)[0] == files0[k]);
                assert(fd == files0[k]);
                assert(files0.skip(k).remove(0) =~= files0.skip(k + 1));
                assert(fp[k] == files0[k].1@);
            }
            let (install, data) = fd;
            let size = data.len();
            let idx64 = table.len() as u64;
            let ghost old_tab = table.deep_view();
            table.push(data);
            proof {
                assert(table.deep_view() =~~= old_tab + seq![files0[k].1@]);
                assert(fp.take(k + 1) =~= fp.take(k).push(fp[k]));
                assert(table.deep_view() =~= catalog_payloads(in0.take(j)) + fp.take(k + 1));
            }
            pfiles.push(PluginFile { install, index: idx64, size });
        }
        proof {
            assert(fp.take(files0.len() as int) =~= fp);
        }
        let hosted_plugins::Metadata {
            name: meta_name,
            images,
            description: meta_description,
            changelog,
        } = metadata;
        let ghost ip = image_payloads(in0[j]);
        let images_index = table.len() as u64;
        let image_count: u64;
        match images {
            Some(im) => {
                let ghost im0 = im.deep_view();
                proof {
                    assert(ip == im0);
                    assert(ip.take(0) =~= Seq::<Seq<u8>>::empty());
                    assert(table.deep_view() =~= catalog_payloads(in0.take(j)) + fp + ip.take(0));
                }
                image_count = im.len() as u64;
                let ghost ilen = im@.len();
                let mut rem = im;
                let mut done: usize = 0;
                while rem.len() > 0
                    invariant
                        done + rem@.len() == ilen,
                        ilen == im0.len(),
                        rem.deep_view() == im0.skip(done as int),
                        table.deep_view() == catalog_payloads(in0.take(j)) + fp + im0.take(
                            done as int,
                        ),
                    decreases rem@.len(),
                {
                    let ghost d = done as int;
                    proof {
                        crate::bytes::lemma_deep_view_elts(&rem);
                        assert(rem.deep_view()[0] == im0.skip(d)[0]);
                        assert(im0.skip(d)[0] == im0[d]);
                    }
                    let b = rem.remove(0);
                    proof {
                        assert(b@ == im0[d]);
                        assert(rem.deep_view() =~~= im0.skip(d).remove(0));
                        assert(im0.skip(d).remove(0) =~= im0.skip(d + 1));
                    }
                    let ghost old_tab = table.deep_view();
                    table.push(b);
                    proof {
                        assert(table.deep_view() =~~= old_tab + seq![im0[d]]);
                        assert(im0.take(d + 1) =~= im0.take(d).push(im0[d]));
                        assert(table.deep_view() =~= catalog_payloads(in0.take(j)) + fp
                            + im0.take(d + 1));
                    }
                    done += 1;
                }
                proof {
                    assert(im0.take(ilen as int) =~= im0);
                }
            },
            None => {
                image_count = 0;
                proof {
                    assert(ip =~= Seq::<Seq<u8>>::empty());
                    assert(table.deep_view() =~= catalog_payloads(in0.take(j)) + fp + ip);
                }
            },
        }
        let changelog_index: Option<u64> = match changelog {
            Some(s) => {
                let ci = table.len() as u64;
                let b = s.as_str().as_bytes_vec();
                let ghost old_tab = table.deep_view();
                table.push(b);
                proof {
                    assert(table.deep_view() =~~= old_tab + seq![encode_utf8(s@)]);
                }
                Some(ci)
            },
            None => None,
        };
        proof {
            assert(table.deep_view() =~= catalog_payloads(in0.take(j)) + plugin_payloads(
                in0[j],
            ));
            lemma_catalog_payloads_snoc(in0.take(j), in0[j]);
            assert(in0.take(j).push(in0[j]) =~= in0.take(j + 1));
            assert(table.deep_view() =~= catalog_payloads(in0.take(j + 1)));
        }
        let p = Plugin {
            name,
            plugin_version,
            version_text,
            skyline_version,
            beta,
            files: pfiles,
            meta_name,
            meta_description,
            images_index,
            image_count,
            changelog_index,
        };
        proof {
            assert(built_from(p, in0[j], base));
        }
        plugins.push(p);
    }
    proof {
        assert(in0.take(in0.len() as int) =~= in0);
    }
    (plugins, table)
}

} // verus!
