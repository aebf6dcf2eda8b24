use holligerme::compress::{resolution_plan, Action, Event, ImageCompressor, Phase, Stage, MAX_ENCODED_WIDTH};
use holligerme::image::{CommandOutput, Image};
use holligerme::picture::convert_image_list_to_html_element_and_map;

fn out(code: i32, text: &str) -> Event {
    Event::Output(CommandOutput { code, text: text.to_string() })
}

fn expect_identify(a: Action, path: &str) {
    match a {
        Action::Identify(p) => assert_eq!(p, path),
        _ => panic!("expected identify of {}", path),
    }
}

fn expect_age(a: Action, path: &str) {
    match a {
        Action::FileAge(p) => assert_eq!(p, path),
        _ => panic!("expected the age of {}", path),
    }
}

fn expect_run(a: Action, args: &[&str]) {
    match a {
        Action::Run(v) => assert_eq!(v, args.iter().map(|s| s.to_string()).collect::<Vec<_>>()),
        _ => panic!("expected command {:?}", args),
    }
}

fn finished(a: Action) -> Result<Vec<Image>, &'static str> {
    match a {
        Action::Finished(r) => r,
        _ => panic!("expected the end of the job"),
    }
}

#[test]
fn widths_to_make() {
    assert_eq!(resolution_plan(&None, false, 1000), vec![1800, 1530, 1200, 792, 600, 300, 1000]);
    assert_eq!(resolution_plan(&None, true, 500), vec![500]);
    assert_eq!(resolution_plan(&None, true, 700), vec![1200, 600]);
    assert_eq!(resolution_plan(&Some(vec![5, 7]), true, 700), vec![5, 7]);
    assert_eq!(MAX_ENCODED_WIDTH, 1800 * 2);
}

#[test]
fn compressor_directories() {
    let c = ImageCompressor::new("/tmp/w", true);
    assert_eq!(c.artifact_directories(), vec!["/tmp/w/artifacts/cache".to_string(), "/tmp/w/artifacts/publish".to_string()]);
}

#[test]
fn speed_job_resizes_then_encodes_both_formats() {
    let c = ImageCompressor::new("/tmp/w", true);
    let mut job = c.compress_lossy("/img/a.png");
    let crc = crc32fast::hash("/img/a.png".as_bytes());
    let resize = format!("/tmp/w/artifacts/cache/{}_resize_pre_600.png", crc);
    let jxl = format!("/tmp/w/artifacts/publish/{}_600.jxl", crc);
    let webp = format!("/tmp/w/artifacts/publish/{}_600.webp", crc);

    assert_eq!(job.stage(), Stage::Source(Phase::Probe));
    expect_identify(job.action(), "/img/a.png");
    job.resume(out(0, "a.png PNG 800x600 800x600+0+0 8-bit sRGB 10KB 0.000u 0:00.000\n"));

    // 1200 is wider than the source: the job goes on with 600.
    assert_eq!(job.stage(), Stage::Resize(Phase::Probe));
    expect_identify(job.action(), &resize);
    job.resume(out(1, "unable to open image"));
    expect_age(job.action(), &resize);
    assert!(!job.accepts(&out(0, "")));
    job.resume(Event::Age(None));
    expect_run(job.action(), &["convert", "/img/a.png", "-resize", "600x", &resize]);
    job.resume(out(0, ""));
    expect_identify(job.action(), &resize);
    job.resume(out(0, "r PNG 600x450 600x450+0+0 8-bit"));

    assert_eq!(job.stage(), Stage::Jxl(Phase::Probe));
    expect_identify(job.action(), &jxl);
    job.resume(out(1, ""));
    // The resize was just made, so the encoding is made without asking its age.
    expect_run(job.action(), &["cjxl", "-d", "3", "-e", "5", &resize, &jxl]);
    job.resume(out(0, ""));
    expect_identify(job.action(), &jxl);
    job.resume(out(0, "j JXL 600x450 600x450+0+0 8-bit"));

    assert_eq!(job.stage(), Stage::Webp(Phase::Probe));
    expect_identify(job.action(), &webp);
    job.resume(out(1, ""));
    expect_run(job.action(), &["cwebp", "-mt", "-q", "75", "-z", "1", "-alpha_filter", "best", "-metadata", "icc", &resize, "-o", &webp]);
    job.resume(out(0, ""));
    job.resume(out(0, "w WEBP 600x450 600x450+0+0 8-bit"));

    assert_eq!(job.stage(), Stage::Done);
    let images = finished(job.action()).unwrap();
    assert_eq!(images.len(), 2);
    assert_eq!((images[0].path.as_str(), images[0].codec.as_str(), images[0].width), (jxl.as_str(), "jxl", 600));
    assert_eq!((images[1].path.as_str(), images[1].codec.as_str(), images[1].width), (webp.as_str(), "webp", 600));
    assert!(!job.accepts(&out(0, "")));

    let (served, html) = convert_image_list_to_html_element_and_map(images, None);
    assert_eq!(served[0].1, format!("/generated/{}_600.jxl", crc));
    assert_eq!(served[1].1, format!("/generated/{}_600.webp", crc));
    assert_eq!(
        html,
        format!(
            "<picture><source srcset=\"/generated/{c}_600.jxl 600w\" type=\"image/jxl\"><img srcset=\"/generated/{c}_600.webp 600w\" type=\"image/webp\" src=\"/generated/{c}_600.webp\"></picture>\n",
            c = crc
        )
    );
}

#[test]
fn fresh_cached_files_are_kept() {
    let c = ImageCompressor::new("w", false);
    let mut job = c.compress_lossy_with_custom_resolutions("/i/b.png", vec![100, 5000]);
    job.resume(out(0, "b PNG 200x100 200x100+0+0 8-bit"));
    let crc = crc32fast::hash("/i/b.png".as_bytes());
    let resize = format!("w/artifacts/cache/{}_resize_pre_100.png", crc);
    let jxl = format!("w/artifacts/publish/{}_100.jxl", crc);
    let webp = format!("w/artifacts/publish/{}_100.webp", crc);
    expect_identify(job.action(), &resize);
    job.resume(out(0, "r PNG 100x50 100x50+0+0 8-bit"));
    expect_age(job.action(), &resize);
    job.resume(Event::Age(Some(60)));
    expect_identify(job.action(), &jxl);
    job.resume(out(0, "j JXL 100x50 100x50+0+0 8-bit"));
    expect_age(job.action(), &jxl);
    job.resume(Event::Age(Some(60)));
    expect_identify(job.action(), &webp);
    job.resume(out(0, "w WEBP 100x50 100x50+0+0 8-bit"));
    expect_age(job.action(), &webp);
    job.resume(Event::Age(Some(60)));
    // 5000 is wider than the source and than the widest encoding: the job ends.
    let images = finished(job.action()).unwrap();
    let paths: Vec<&str> = images.iter().map(|i| i.path.as_str()).collect();
    assert_eq!(paths, vec![jxl.as_str(), webp.as_str()]);
}

#[test]
fn lossless_full_quality_commands() {
    let c = ImageCompressor::new("w", false);
    let mut job = c.compress_lossless("/i/c.png");
    job.resume(out(0, "c PNG 300x100 300x100+0+0 8-bit"));
    let crc = crc32fast::hash("/i/c.png".as_bytes());
    let resize = format!("w/artifacts/cache/{}_resize_pre_300.png", crc);
    let jxl = format!("w/artifacts/publish/{}_300.jxl", crc);
    let webp = format!("w/artifacts/publish/{}_300.webp", crc);
    // Only the source's own width and 300 fit; 300 comes first in the plan.
    expect_identify(job.action(), &resize);
    job.resume(out(1, ""));
    job.resume(Event::Age(None));
    job.resume(out(0, ""));
    job.resume(out(0, "r PNG 300x100 300x100+0+0 8-bit"));
    job.resume(out(1, ""));
    expect_run(job.action(), &["cjxl", "-d", "0", "-e", "10", &resize, &jxl]);
    job.resume(out(0, ""));
    job.resume(out(0, "j JXL 300x100 300x100+0+0 8-bit"));
    job.resume(out(1, ""));
    expect_run(job.action(), &["cwebp", "-mt", "-lossless", "-z", "9", "-alpha_filter", "best", "-metadata", "icc", &resize, "-o", &webp]);
}

#[test]
fn failed_download_ends_the_job() {
    let c = ImageCompressor::new("/w", false);
    let url = "http://example.org/p.gif";
    let mut job = c.compress_lossless(url);
    let cached = format!("/w/artifacts/cache/image-url-{:x}.gif", crc32fast::hash(url.as_bytes()));
    expect_identify(job.action(), &cached);
    job.resume(out(1, ""));
    expect_age(job.action(), &cached);
    job.resume(Event::Age(None));
    expect_run(job.action(), &["curl", url, "-o", &cached]);
    job.resume(out(6, "Could not resolve host"));
    assert_eq!(job.stage(), Stage::DownloadFailed);
    assert_eq!(finished(job.action()).unwrap_err(), "Curl failed");
}

#[test]
fn animated_source_keeps_its_own_width() {
    let c = ImageCompressor::new("/w", true);
    let mut job = c.compress_speed("/i/a.gif");
    job.resume(out(0, "a.gif[0] GIF 400x300 400x300+0+0 8-bit\na.gif[1] GIF 400x300 400x300+0+0 8-bit\n"));
    let crc = crc32fast::hash("/i/a.gif".as_bytes());
    let ani = format!("/w/artifacts/publish/{}_ani_400.webp", crc);
    assert_eq!(job.stage(), Stage::Animation(Phase::Probe));
    expect_identify(job.action(), &ani);
    job.resume(out(1, ""));
    job.resume(Event::Age(None));
    expect_run(job.action(), &["gif2webp", "-q", "75", "-m", "1", "-metadata", "icc", "/i/a.gif", "-o", &ani]);
    job.resume(out(0, ""));
    job.resume(out(0, "x[0] WEBP 400x300 400x300+0+0 8-bit\nx[1] WEBP 400x300 400x300+0+0 8-bit"));
    let images = finished(job.action()).unwrap();
    let paths: Vec<&str> = images.iter().map(|i| i.path.as_str()).collect();
    assert_eq!(paths, vec![ani.as_str(), "/i/a.gif"]);
}

#[test]
fn still_webp_goes_through_png() {
    let c = ImageCompressor::new("/w", true);
    let mut job = c.compress_speed("/i/s.webp");
    job.resume(out(0, "s WEBP 500x300 500x300+0+0 8-bit"));
    let crc = crc32fast::hash("/i/s.webp".as_bytes());
    let png = format!("/w/artifacts/cache/{}.png", crc);
    assert_eq!(job.stage(), Stage::Png(Phase::Probe));
    expect_identify(job.action(), &png);
    job.resume(out(1, ""));
    job.resume(Event::Age(None));
    expect_run(job.action(), &["convert", "/i/s.webp", &png]);
    job.resume(out(1, "convert failed"));
    // A failed conversion serves the source as it is.
    let images = finished(job.action()).unwrap();
    assert_eq!(images.len(), 1);
    assert_eq!(images[0].path, "/i/s.webp");
}

#[test]
fn files_made_from_a_new_download_are_made_anew() {
    let c = ImageCompressor::new("/w", true);
    let url = "https://example.org/p.png";
    let mut job = c.compress_speed(url);
    let cached = format!("/w/artifacts/cache/image-url-{:x}.png", crc32fast::hash(url.as_bytes()));
    job.resume(out(1, ""));
    job.resume(Event::Age(None));
    expect_run(job.action(), &["curl", url, "-o", &cached]);
    job.resume(out(0, ""));
    expect_identify(job.action(), &cached);
    job.resume(out(0, "p PNG 800x600 800x600+0+0 8-bit"));
    let resize = format!("/w/artifacts/cache/{}_resize_pre_600.png", crc32fast::hash(cached.as_bytes()));
    expect_identify(job.action(), &resize);
    // The resize exists, but its source was just downloaded: it is made again at once.
    job.resume(out(0, "r PNG 600x450 600x450+0+0 8-bit"));
    assert_eq!(job.stage(), Stage::Resize(Phase::Run));
    expect_run(job.action(), &["convert", &cached, "-resize", "600x", &resize]);
}

#[test]
fn file_names_use_the_ieee_crc32() {
    let c = ImageCompressor::new("/w", true);
    let job = c.compress_speed("https://example.org/p.png");
    expect_identify(job.action(), "/w/artifacts/cache/image-url-c11c66df.png");
    let mut local = c.compress_speed("/img/a.png");
    local.resume(out(0, "a PNG 800x600 800x600+0+0 8-bit"));
    expect_identify(local.action(), "/w/artifacts/cache/3338611524_resize_pre_600.png");
}
