//! The fixed texts of the site's pages.
use vstd::prelude::*;

verus! {

pub const ABOUT_HEADING: &'static str = "Well hello 👋 guess you wanted to know more about me";

pub const ABOUT_STUDIES: &'static str = "I'm currently a third year at the Georgia Institute of Technology
        (I’m just going to call it Georgia Tech, but I guess that’s the official title it’s supposed to be called by)
        I am currently studying Computer Engineering, focusing in distributed systems and hardware. I was formerly
        Computer Science with Intelligence and Media (also then formerly Devices)";

pub const ABOUT_FREE_TIME: &'static str = "Much of my free time when I’m not attempting to be productive usually consists
        of listening to music (Spotify Discover Weekly and Apple Music Radio are a wonderful creations) in my car or at my desk.
        I also enjoy attending concerts or new movie releases whenever I can (AMC A-List!).
        Much of my time is spent working on various personal projects such as the homelab (post soon)
        that powers this website as well as all the other things I host.";

pub const ABOUT_AQUARIUM: &'static str = "Whenever I’m not on campus (and at home), I manage (and have for many years)
        a 65 gallon saltwater aquarium complete with some fish, plenty of coral, some shrimp, and an anemone (well, 4, it keeps multiplying).
        Unfortunately my phone camera cannot take good pictures of the tank, otherwise I would put one here.
        When I am on vacation, I tend to scuba dive wrecks in the area, or coral reefs (posts soon, allegedly).";

pub const ABOUT_RADIO_START: &'static str = "On campus, I am an active member of WREK Atlanta, the school’s public radio station (available at 91.1 FM in Georgia or at ";

pub const ABOUT_RADIO_END: &'static str = "anywhere with internet),
        where I operate the station every Friday at 11am to 12pm. I am also on the engineering team as Assistant Chief Engineer where we are currently working on modernizing some of our older systems.
        I am also on the exec board of the Amateur Radio Club (W4AQL). I'm not too active over the airwaves, but I can be found as KQ4QME!";

pub const ABOUT_RESUME: &'static str = "If you would like my personal resume, can be obtained upon email request. My LinkedIn should be mostly up to date however.";

pub const ABOUT_UPDATED: &'static str = "This page was last updated November 19, 2024. It is likely not complete or entirely up to date.";

pub const FOOTER_OPINIONS: &'static str = "All opinions here are my own and do not reflect the views of my employers or university: future, past, and present.";

pub const HOME_INTRO: &'static str = "I'm a software engineer in Atlanta, Georgia currently studying Computer Engineering at Georgia Tech. I was previously (and will be in 2025) an intern at Apple, working in Services Engineering where I have worked on various HLS and metadata technologies.";

pub const HOME_EXPERIENCE: &'static str = "I have experience and enjoy working with large sums of data in Rust, JavaScript, and/or TypeScript. In the past I've analyzed millions of projects and accounts on Scratch, as well as made an API to query ranking information.
                        At Apple, I've worked on HLS technologies in areas of metadata, live streaming, and ad serving.";

pub const HOME_PROJECTS: &'static str = "Currently I'm between a lot of different projects (a lot to do with video encoding and also QR codes, perhaps both together at the same time), and yet another class requires me to make a blog/website, so this website is existing from that class and also pressure from many friends. Hopefully this one I can keep up to date!";

pub const HOME_CONTACT_START: &'static str = "If you want to stay in touch, feel free to add me on ";

pub const FILE_NOT_FOUND_HINT: &'static str = "Have you made sure every part of the URL is correct? Capitalization matters!";

} // verus!
