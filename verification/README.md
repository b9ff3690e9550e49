# CarbonPaper core

The verified core of a desktop application that remembers what was on the
screen. Its formats, rules and decisions are in `src/`, written in Verus with
their contracts; what touches the system, and the loops that put the decisions
into effect, are in `app/`.

| Modules | What they hold |
| --- | --- |
| `ann_format`, `ann_sidecar`, `codec` | the file format of the vectors, written and read back |
| `ann_protocol`, `ann_worker`, `resumable` | the resumable build of the search graph |
| `clip_contract`, `clip_search`, `clip_ann`, `clip_index`, `prepared_pixels`, `derived`, `ranking` | the image index: jobs, generations, searches |
| `background_scheduler`, `scheduler_state`, `background_activity` | which background work runs next, and what became of it |
| `background_policy`, `background_resources`, `adaptive` | how much of the machine it may use |
| `capture`, `images` | when the screen is captured, and what a capture becomes |
| `anchors`, `scoring`, `classifier`, `classify`, `classification`, `classification_runtime` | the category of a screenshot, and learning from feedback |
| `nmh` | the relay between the browser extension and the application |
| `app_bound`, `autostart`, `analysis`, `blind_index_repair`, `workers` | smaller parts of the application |
| `text`, `names`, `order`, `ieee`, `json`, `paths`, `digest`, `timestamps` | what the others are built from |

Floating-point numbers are taken by their bit patterns: the library compares
and stores them, and `app/` does the arithmetic. Laws that span several
functions are public proof functions whose names begin with `law_`.
